//! Regular expressions, and how often their engine has to try again.
//!
//! The engine backtracks, and gives up where it has failed 10,000,000 times from one place
//! of a text. An expression is read in one pass over its bytes: the reader keeps track of
//! the ways in which what came before can match, and of the failures that these ways can
//! lead to. Half of what the engine allows is admitted.

use vstd::prelude::*;
use vstd::string::*;
use vstd::utf8::*;

verus! {

/// The number from which on numbers are all the same.
pub const MOST: u64 = 10_000_000;

/// The most failures that are admitted of an expression.
pub const RETRIES: u64 = 5_000_000;

/// A number, or [`MOST`].
pub open spec fn capped(number: int) -> u64 {
    if number < MOST {
        number as u64
    } else {
        MOST
    }
}

/// The sum of two numbers, or [`MOST`].
pub(crate) fn plus(a: u64, b: u64) -> (sum: u64)
    ensures
        sum == capped(a + b),
{
    let sum: u128 = a as u128 + b as u128;
    if sum < MOST as u128 {
        sum as u64
    } else {
        MOST
    }
}

/// The product of two numbers, or [`MOST`].
pub(crate) fn times(a: u64, b: u64) -> (product: u64)
    ensures
        product == capped(a * b),
{
    assert(a * b <= 0xffff_ffff_ffff_ffff * 0xffff_ffff_ffff_ffff) by (nonlinear_arith)
        requires
            a <= 0xffff_ffff_ffff_ffff,
            b <= 0xffff_ffff_ffff_ffff,
    ;
    let product: u128 = a as u128 * b as u128;
    if product < MOST as u128 {
        product as u64
    } else {
        MOST
    }
}

/// What the next byte of an expression belongs to.
#[derive(Debug, Clone, Copy, PartialEq, Eq, Structural)]
pub enum Mode {
    /// The expression itself.
    Plain,
    /// A group that has just been opened.
    Open,
    /// The kind of a group.
    Kind,
    /// The kind of a group that ignores case.
    Fold,
    /// What follows a backslash.
    Escape,
    /// The property of a character, which is to be opened.
    Property,
    /// The name of the property of a character.
    Name,
    /// A class that has just been opened.
    ClassStart,
    /// A class that has just been inverted.
    ClassInverted,
    /// A class.
    Class,
    /// What follows a backslash in a class.
    ClassEscape,
    /// The property of a character in a class, which is to be opened.
    ClassProperty,
    /// The name of the property of a character in a class.
    ClassName,
    /// The first digit of the least number of repetitions.
    LeastStart,
    /// The least number of repetitions.
    Least,
    /// The first digit of the most repetitions.
    MostStart,
    /// The most repetitions.
    Most,
    /// Nothing: the expression is not one that failures are counted of.
    Stopped,
}

/// What comes before the next byte of an expression.
#[derive(Debug, Clone, Copy, PartialEq, Eq, Structural)]
pub enum Last {
    /// Nothing that can be repeated.
    Nothing,
    /// What matches one character.
    Unit,
    /// A group.
    Group,
    /// A repetition, which may be made lazy or possessive.
    Repeat,
    /// A repetition between two numbers, which may be made lazy.
    Interval,
}

/// Where a reader of an expression is, and what it has come across.
#[derive(Debug, Clone, Copy, PartialEq, Eq, Structural)]
pub struct Reading {
    pub mode: Mode,
    pub last: Last,
    /// Whether it is in a group.
    pub grouped: bool,
    /// Whether the group ignores case.
    pub folded: bool,
    /// The ways in which what comes before the last unit, or the last group, can match.
    pub before: u64,
    /// The ways in which all that comes before can match.
    pub ways: u64,
    /// The ways in which what comes before the group can match.
    pub entry: u64,
    /// The ways in which the earlier alternatives of the group can match.
    pub others: u64,
    /// Whether the group looks ahead.
    pub looking: bool,
    /// Whether an earlier alternative can match nothing.
    pub any_empty: bool,
    /// Whether what comes before in the alternative, but for the last unit or group, can
    /// match nothing.
    pub before_empty: bool,
    /// Whether all that comes before in the alternative can match nothing.
    pub empty: bool,
    /// Whether what comes before the group can match nothing.
    pub entry_empty: bool,
    /// Whether an earlier alternative of the group can match nothing.
    pub others_empty: bool,
    /// How often a match can fail.
    pub fails: u64,
    /// The least number of repetitions.
    pub least: u64,
    /// The most repetitions.
    pub most: u64,
}

/// Where a reader starts.
pub open spec fn at_start() -> Reading {
    Reading {
        mode: Mode::Plain,
        last: Last::Nothing,
        grouped: false,
        folded: false,
        before: 1,
        ways: 1,
        entry: 1,
        others: 0,
        looking: false,
        any_empty: false,
        before_empty: true,
        empty: true,
        entry_empty: true,
        others_empty: false,
        fails: 0,
        least: 0,
        most: 0,
    }
}

/// Where a reader is that does not go on.
pub open spec fn stopped(reading: Reading) -> Reading {
    Reading { mode: Mode::Stopped, ..reading }
}

/// Where a reader is after what matches one character. With no regard to case, it can
/// match in up to 14 ways.
pub open spec fn after_unit(reading: Reading) -> Reading {
    Reading {
        mode: Mode::Plain,
        last: if reading.folded {
            Last::Nothing
        } else {
            Last::Unit
        },
        before: reading.ways,
        before_empty: reading.empty,
        empty: false,
        ways: if reading.folded {
            capped(reading.ways * 16)
        } else {
            reading.ways
        },
        fails: if reading.folded {
            capped(reading.fails + capped(reading.ways * 32))
        } else {
            capped(reading.fails + capped(reading.ways * 2))
        },
        ..reading
    }
}

/// Where a reader is after what matches a place.
pub open spec fn after_anchor(reading: Reading) -> Reading {
    Reading {
        mode: Mode::Plain,
        last: Last::Nothing,
        fails: capped(reading.fails + capped(reading.ways * 2)),
        ..reading
    }
}

/// Where a reader is after a unit has been repeated, with this many ways for it to match,
/// and this many failures more. It may be that the unit need not match at all.
pub open spec fn after_repetition(
    reading: Reading,
    last: Last,
    optional: bool,
    ways: u64,
    fails: u64,
) -> Reading {
    Reading {
        mode: Mode::Plain,
        last,
        empty: optional && reading.before_empty,
        ways: capped(reading.before * ways),
        fails: capped(reading.fails + capped(reading.before * fails)),
        ..reading
    }
}

/// Where a reader is in a new group.
pub open spec fn in_group(reading: Reading) -> Reading {
    Reading {
        mode: Mode::Open,
        last: Last::Nothing,
        grouped: true,
        folded: false,
        entry: reading.ways,
        others: 0,
        looking: false,
        entry_empty: reading.empty,
        others_empty: false,
        fails: capped(reading.fails + capped(reading.ways * 2)),
        ..reading
    }
}

/// Where a reader is after a group.
pub open spec fn after_group(reading: Reading) -> Reading {
    let ways = capped(reading.others + reading.ways);
    Reading {
        mode: Mode::Plain,
        last: Last::Group,
        grouped: false,
        folded: false,
        before: reading.entry,
        before_empty: reading.entry_empty,
        empty: if reading.looking {
            reading.entry_empty
        } else {
            reading.others_empty || reading.empty
        },
        ways,
        fails: capped(reading.fails + capped(ways * 2)),
        ..reading
    }
}

/// Where a reader is in the next alternative.
pub open spec fn in_alternative(reading: Reading) -> Reading {
    if reading.grouped {
        Reading {
            mode: Mode::Plain,
            last: Last::Nothing,
            others: capped(reading.others + reading.ways),
            ways: reading.entry,
            others_empty: reading.others_empty || reading.empty,
            empty: reading.entry_empty,
            ..reading
        }
    } else {
        Reading {
            mode: Mode::Plain,
            last: Last::Nothing,
            ways: 1,
            any_empty: reading.any_empty || reading.empty,
            empty: true,
            ..reading
        }
    }
}

/// Where a reader is after a mark that repeats, or that says how. An expression is to
/// match in a text of so many bytes.
pub open spec fn after_mark(reading: Reading, byte: u8, length: u64) -> Reading {
    match (reading.last, byte) {
        (Last::Unit, 42) => after_repetition(reading, Last::Repeat, true, capped(length + 2), 0),
        (Last::Unit, 43) => after_repetition(reading, Last::Repeat, false, capped(length + 2), 0),
        (Last::Unit, 63) => after_repetition(reading, Last::Repeat, true, 2, 0),
        (Last::Group, 63) => Reading {
            mode: Mode::Plain,
            last: Last::Nothing,
            empty: reading.before_empty,
            ways: capped(reading.before + reading.ways),
            ..reading
        },
        (Last::Repeat, 43) => Reading { mode: Mode::Plain, last: Last::Nothing, ..reading },
        (Last::Repeat, 63) => Reading { mode: Mode::Plain, last: Last::Nothing, ..reading },
        (Last::Interval, 63) => Reading {
            mode: Mode::Plain,
            last: Last::Nothing,
            empty: reading.before_empty,
            ..reading
        },
        _ => stopped(reading),
    }
}

/// Where a reader is after one byte more of the expression itself.
pub open spec fn after_plain(reading: Reading, byte: u8, length: u64) -> Reading {
    if byte == 40 {
        if reading.grouped {
            stopped(reading)
        } else {
            in_group(reading)
        }
    } else if byte == 41 {
        if reading.grouped {
            after_group(reading)
        } else {
            stopped(reading)
        }
    } else if byte == 124 {
        in_alternative(reading)
    } else if byte == 42 || byte == 43 || byte == 63 {
        after_mark(reading, byte, length)
    } else if byte == 123 {
        if reading.last == Last::Unit {
            Reading { mode: Mode::LeastStart, least: 0, most: 0, ..reading }
        } else {
            stopped(reading)
        }
    } else if byte == 36 || byte == 94 {
        after_anchor(reading)
    } else if reading.folded && (byte == 91 || byte == 92 || byte >= 128) {
        stopped(reading)
    } else if byte == 91 {
        Reading { mode: Mode::ClassStart, ..reading }
    } else if byte == 92 {
        Reading { mode: Mode::Escape, ..reading }
    } else if 128 <= byte < 192 {
        // The rest of a character.
        Reading { mode: Mode::Plain, ..reading }
    } else {
        after_unit(reading)
    }
}

/// Whether a byte stands for a kind of characters, or a character, after a backslash.
pub open spec fn is_escape(byte: u8) -> bool {
    ||| byte == 115 || byte == 83 || byte == 100 || byte == 68 || byte == 119 || byte == 87
    ||| byte == 104 || byte == 72 || byte == 114 || byte == 110 || byte == 116 || byte == 102
    ||| byte == 118 || byte == 97 || byte == 101
    ||| 33 <= byte <= 47 || 58 <= byte <= 64 || 91 <= byte <= 96 || 123 <= byte <= 126
}

/// Whether a byte stands for a place after a backslash.
pub open spec fn is_place(byte: u8) -> bool {
    byte == 98 || byte == 66 || byte == 65 || byte == 122 || byte == 90 || byte == 71
}

/// Whether a byte may be part of the name of a property.
pub open spec fn is_name(byte: u8) -> bool {
    ||| 48 <= byte <= 57 || 65 <= byte <= 90 || 97 <= byte <= 122
    ||| byte == 32 || byte == 45 || byte == 94 || byte == 95
}

/// Whether a byte is a digit.
pub open spec fn is_digit(byte: u8) -> bool {
    48 <= byte <= 57
}

/// A number with one digit more.
pub open spec fn with_digit(number: u64, byte: u8) -> u64 {
    capped(capped(number * 10) + (byte - 48))
}

/// Where a reader is after one byte more.
pub open spec fn after_byte(reading: Reading, byte: u8, length: u64) -> Reading {
    match reading.mode {
        Mode::Plain => after_plain(reading, byte, length),
        Mode::Open => if byte == 63 {
            Reading { mode: Mode::Kind, ..reading }
        } else {
            after_plain(reading, byte, length)
        },
        Mode::Kind => if byte == 58 || byte == 61 || byte == 33 || byte == 62 {
            Reading { mode: Mode::Plain, looking: byte == 61 || byte == 33, ..reading }
        } else if byte == 105 {
            Reading { mode: Mode::Fold, ..reading }
        } else {
            stopped(reading)
        },
        Mode::Fold => if byte == 58 {
            Reading { mode: Mode::Plain, folded: true, ..reading }
        } else {
            stopped(reading)
        },
        Mode::Escape => if is_escape(byte) {
            after_unit(reading)
        } else if is_place(byte) {
            after_anchor(reading)
        } else if byte == 112 || byte == 80 {
            Reading { mode: Mode::Property, ..reading }
        } else {
            stopped(reading)
        },
        Mode::Property => if byte == 123 {
            Reading { mode: Mode::Name, ..reading }
        } else {
            stopped(reading)
        },
        Mode::Name => if byte == 125 {
            after_unit(reading)
        } else if is_name(byte) {
            reading
        } else {
            stopped(reading)
        },
        Mode::ClassStart => if byte == 94 {
            Reading { mode: Mode::ClassInverted, ..reading }
        } else if byte == 91 || byte == 93 {
            stopped(reading)
        } else if byte == 92 {
            Reading { mode: Mode::ClassEscape, ..reading }
        } else {
            Reading { mode: Mode::Class, ..reading }
        },
        Mode::ClassInverted => if byte == 91 || byte == 93 {
            stopped(reading)
        } else if byte == 92 {
            Reading { mode: Mode::ClassEscape, ..reading }
        } else {
            Reading { mode: Mode::Class, ..reading }
        },
        Mode::Class => if byte == 93 {
            after_unit(reading)
        } else if byte == 91 {
            stopped(reading)
        } else if byte == 92 {
            Reading { mode: Mode::ClassEscape, ..reading }
        } else {
            reading
        },
        Mode::ClassEscape => if is_escape(byte) {
            Reading { mode: Mode::Class, ..reading }
        } else if byte == 112 || byte == 80 {
            Reading { mode: Mode::ClassProperty, ..reading }
        } else {
            stopped(reading)
        },
        Mode::ClassProperty => if byte == 123 {
            Reading { mode: Mode::ClassName, ..reading }
        } else {
            stopped(reading)
        },
        Mode::ClassName => if byte == 125 {
            Reading { mode: Mode::Class, ..reading }
        } else if is_name(byte) {
            reading
        } else {
            stopped(reading)
        },
        Mode::LeastStart => if is_digit(byte) {
            Reading { mode: Mode::Least, least: with_digit(0, byte), ..reading }
        } else {
            stopped(reading)
        },
        Mode::Least => if is_digit(byte) {
            Reading { least: with_digit(reading.least, byte), ..reading }
        } else if byte == 44 {
            Reading { mode: Mode::MostStart, ..reading }
        } else if byte == 125 {
            after_repetition(
                reading,
                Last::Interval,
                reading.least == 0,
                capped(reading.least + 2),
                capped(reading.least + 2),
            )
        } else {
            stopped(reading)
        },
        Mode::MostStart => if is_digit(byte) {
            Reading { mode: Mode::Most, most: with_digit(0, byte), ..reading }
        } else if byte == 125 {
            after_repetition(
                reading,
                Last::Interval,
                reading.least == 0,
                capped(length + 2),
                capped(reading.least + 2),
            )
        } else {
            stopped(reading)
        },
        Mode::Most => if is_digit(byte) {
            Reading { most: with_digit(reading.most, byte), ..reading }
        } else if byte == 125 && reading.least <= reading.most {
            after_repetition(
                reading,
                Last::Interval,
                reading.least == 0,
                capped(reading.most + 2),
                capped(reading.most + 2),
            )
        } else {
            stopped(reading)
        },
        Mode::Stopped => reading,
    }
}

/// Where a reader is at the end of an expression.
pub open spec fn read(expression: Seq<u8>, length: u64) -> Reading
    decreases expression.len(),
{
    if expression.len() == 0 {
        at_start()
    } else {
        after_byte(read(expression.drop_last(), length), expression.last(), length)
    }
}

/// Whether the failures of an expression with a text of so many bytes are known, and are
/// not too many.
pub open spec fn is_bounded(expression: Seq<u8>, length: u64) -> bool {
    let reading = read(expression, length);
    reading.mode == Mode::Plain && !reading.grouped && reading.fails <= RETRIES
}

/// Whether an expression is one that failures are counted of, and always matches a character
/// at least.
pub open spec fn is_solid(expression: Seq<u8>) -> bool {
    let reading = read(expression, 0);
    reading.mode == Mode::Plain && !reading.grouped && !reading.empty && !reading.any_empty
}

/// Where a reader is after a unit has been repeated.
fn repeat(reading: Reading, last: Last, optional: bool, ways: u64, fails: u64) -> (next: Reading)
    ensures
        next == after_repetition(reading, last, optional, ways, fails),
{
    Reading {
        mode: Mode::Plain,
        last,
        empty: optional && reading.before_empty,
        ways: times(reading.before, ways),
        fails: plus(reading.fails, times(reading.before, fails)),
        ..reading
    }
}

/// Where a reader is after what matches one character.
fn take_unit(reading: Reading) -> (next: Reading)
    ensures
        next == after_unit(reading),
{
    Reading {
        mode: Mode::Plain,
        last: if reading.folded {
            Last::Nothing
        } else {
            Last::Unit
        },
        before: reading.ways,
        before_empty: reading.empty,
        empty: false,
        ways: if reading.folded {
            times(reading.ways, 16)
        } else {
            reading.ways
        },
        fails: if reading.folded {
            plus(reading.fails, times(reading.ways, 32))
        } else {
            plus(reading.fails, times(reading.ways, 2))
        },
        ..reading
    }
}

/// Where a reader is after what matches a place.
fn take_anchor(reading: Reading) -> (next: Reading)
    ensures
        next == after_anchor(reading),
{
    Reading {
        mode: Mode::Plain,
        last: Last::Nothing,
        fails: plus(reading.fails, times(reading.ways, 2)),
        ..reading
    }
}

/// Where a reader is after a mark that repeats, or that says how.
fn take_mark(reading: Reading, byte: u8, length: u64) -> (next: Reading)
    requires
        length <= MOST,
    ensures
        next == after_mark(reading, byte, length),
{
    match (reading.last, byte) {
        (Last::Unit, 42) => repeat(reading, Last::Repeat, true, plus(length, 2), 0),
        (Last::Unit, 43) => repeat(reading, Last::Repeat, false, plus(length, 2), 0),
        (Last::Unit, 63) => repeat(reading, Last::Repeat, true, 2, 0),
        (Last::Group, 63) => Reading {
            mode: Mode::Plain,
            last: Last::Nothing,
            empty: reading.before_empty,
            ways: plus(reading.before, reading.ways),
            ..reading
        },
        (Last::Repeat, 43) => Reading { mode: Mode::Plain, last: Last::Nothing, ..reading },
        (Last::Repeat, 63) => Reading { mode: Mode::Plain, last: Last::Nothing, ..reading },
        (Last::Interval, 63) => Reading {
            mode: Mode::Plain,
            last: Last::Nothing,
            empty: reading.before_empty,
            ..reading
        },
        _ => Reading { mode: Mode::Stopped, ..reading },
    }
}

/// Where a reader is after one byte more of the expression itself.
fn take_plain(reading: Reading, byte: u8, length: u64) -> (next: Reading)
    requires
        length <= MOST,
    ensures
        next == after_plain(reading, byte, length),
{
    if byte == 40 {
        if reading.grouped {
            Reading { mode: Mode::Stopped, ..reading }
        } else {
            Reading {
                mode: Mode::Open,
                last: Last::Nothing,
                grouped: true,
                folded: false,
                entry: reading.ways,
                others: 0,
                looking: false,
                entry_empty: reading.empty,
                others_empty: false,
                fails: plus(reading.fails, times(reading.ways, 2)),
                ..reading
            }
        }
    } else if byte == 41 {
        if reading.grouped {
            let ways: u64 = plus(reading.others, reading.ways);
            Reading {
                mode: Mode::Plain,
                last: Last::Group,
                grouped: false,
                folded: false,
                before: reading.entry,
                before_empty: reading.entry_empty,
                empty: if reading.looking {
                    reading.entry_empty
                } else {
                    reading.others_empty || reading.empty
                },
                ways,
                fails: plus(reading.fails, times(ways, 2)),
                ..reading
            }
        } else {
            Reading { mode: Mode::Stopped, ..reading }
        }
    } else if byte == 124 {
        if reading.grouped {
            Reading {
                mode: Mode::Plain,
                last: Last::Nothing,
                others: plus(reading.others, reading.ways),
                ways: reading.entry,
                others_empty: reading.others_empty || reading.empty,
                empty: reading.entry_empty,
                ..reading
            }
        } else {
            Reading {
                mode: Mode::Plain,
                last: Last::Nothing,
                ways: 1,
                any_empty: reading.any_empty || reading.empty,
                empty: true,
                ..reading
            }
        }
    } else if byte == 42 || byte == 43 || byte == 63 {
        take_mark(reading, byte, length)
    } else if byte == 123 {
        if reading.last == Last::Unit {
            Reading { mode: Mode::LeastStart, least: 0, most: 0, ..reading }
        } else {
            Reading { mode: Mode::Stopped, ..reading }
        }
    } else if byte == 36 || byte == 94 {
        take_anchor(reading)
    } else if reading.folded && (byte == 91 || byte == 92 || byte >= 128) {
        Reading { mode: Mode::Stopped, ..reading }
    } else if byte == 91 {
        Reading { mode: Mode::ClassStart, ..reading }
    } else if byte == 92 {
        Reading { mode: Mode::Escape, ..reading }
    } else if 128 <= byte && byte < 192 {
        Reading { mode: Mode::Plain, ..reading }
    } else {
        take_unit(reading)
    }
}

/// Whether a byte stands for a kind of characters, or a character, after a backslash.
fn check_escape(byte: u8) -> (fits: bool)
    ensures
        fits == is_escape(byte),
{
    byte == 115 || byte == 83 || byte == 100 || byte == 68 || byte == 119 || byte == 87 || byte
        == 104 || byte == 72 || byte == 114 || byte == 110 || byte == 116 || byte == 102 || byte
        == 118 || byte == 97 || byte == 101 || (33 <= byte && byte <= 47) || (58 <= byte && byte
        <= 64) || (91 <= byte && byte <= 96) || (123 <= byte && byte <= 126)
}

/// Whether a byte may be part of the name of a property.
fn check_name(byte: u8) -> (fits: bool)
    ensures
        fits == is_name(byte),
{
    (48 <= byte && byte <= 57) || (65 <= byte && byte <= 90) || (97 <= byte && byte <= 122) || byte
        == 32 || byte == 45 || byte == 94 || byte == 95
}

/// A number with one digit more.
fn add_digit(number: u64, byte: u8) -> (longer: u64)
    requires
        is_digit(byte),
    ensures
        longer == with_digit(number, byte),
{
    plus(times(number, 10), (byte - 48) as u64)
}

/// Where a reader is after one byte more.
fn take_byte(reading: Reading, byte: u8, length: u64) -> (next: Reading)
    requires
        length <= MOST,
    ensures
        next == after_byte(reading, byte, length),
{
    let digit: bool = 48 <= byte && byte <= 57;
    let stop = Reading { mode: Mode::Stopped, ..reading };
    match reading.mode {
        Mode::Plain => take_plain(reading, byte, length),
        Mode::Open => if byte == 63 {
            Reading { mode: Mode::Kind, ..reading }
        } else {
            take_plain(reading, byte, length)
        },
        Mode::Kind => if byte == 58 || byte == 61 || byte == 33 || byte == 62 {
            Reading { mode: Mode::Plain, looking: byte == 61 || byte == 33, ..reading }
        } else if byte == 105 {
            Reading { mode: Mode::Fold, ..reading }
        } else {
            stop
        },
        Mode::Fold => if byte == 58 {
            Reading { mode: Mode::Plain, folded: true, ..reading }
        } else {
            stop
        },
        Mode::Escape => if check_escape(byte) {
            take_unit(reading)
        } else if byte == 98 || byte == 66 || byte == 65 || byte == 122 || byte == 90 || byte == 71 {
            take_anchor(reading)
        } else if byte == 112 || byte == 80 {
            Reading { mode: Mode::Property, ..reading }
        } else {
            stop
        },
        Mode::Property => if byte == 123 {
            Reading { mode: Mode::Name, ..reading }
        } else {
            stop
        },
        Mode::Name => if byte == 125 {
            take_unit(reading)
        } else if check_name(byte) {
            reading
        } else {
            stop
        },
        Mode::ClassStart => if byte == 94 {
            Reading { mode: Mode::ClassInverted, ..reading }
        } else if byte == 91 || byte == 93 {
            stop
        } else if byte == 92 {
            Reading { mode: Mode::ClassEscape, ..reading }
        } else {
            Reading { mode: Mode::Class, ..reading }
        },
        Mode::ClassInverted => if byte == 91 || byte == 93 {
            stop
        } else if byte == 92 {
            Reading { mode: Mode::ClassEscape, ..reading }
        } else {
            Reading { mode: Mode::Class, ..reading }
        },
        Mode::Class => if byte == 93 {
            take_unit(reading)
        } else if byte == 91 {
            stop
        } else if byte == 92 {
            Reading { mode: Mode::ClassEscape, ..reading }
        } else {
            reading
        },
        Mode::ClassEscape => if check_escape(byte) {
            Reading { mode: Mode::Class, ..reading }
        } else if byte == 112 || byte == 80 {
            Reading { mode: Mode::ClassProperty, ..reading }
        } else {
            stop
        },
        Mode::ClassProperty => if byte == 123 {
            Reading { mode: Mode::ClassName, ..reading }
        } else {
            stop
        },
        Mode::ClassName => if byte == 125 {
            Reading { mode: Mode::Class, ..reading }
        } else if check_name(byte) {
            reading
        } else {
            stop
        },
        Mode::LeastStart => if digit {
            Reading { mode: Mode::Least, least: add_digit(0, byte), ..reading }
        } else {
            stop
        },
        Mode::Least => if digit {
            Reading { least: add_digit(reading.least, byte), ..reading }
        } else if byte == 44 {
            Reading { mode: Mode::MostStart, ..reading }
        } else if byte == 125 {
            let least: u64 = plus(reading.least, 2);
            repeat(reading, Last::Interval, reading.least == 0, least, least)
        } else {
            stop
        },
        Mode::MostStart => if digit {
            Reading { mode: Mode::Most, most: add_digit(0, byte), ..reading }
        } else if byte == 125 {
            repeat(
                reading,
                Last::Interval,
                reading.least == 0,
                plus(length, 2),
                plus(reading.least, 2),
            )
        } else {
            stop
        },
        Mode::Most => if digit {
            Reading { most: add_digit(reading.most, byte), ..reading }
        } else if byte == 125 && reading.least <= reading.most {
            let most: u64 = plus(reading.most, 2);
            repeat(reading, Last::Interval, reading.least == 0, most, most)
        } else {
            stop
        },
        Mode::Stopped => reading,
    }
}

/// Reads an expression that is to match in a text of so many bytes.
fn read_expression(expression: &str, length: u64) -> (reading: Reading)
    requires
        length <= MOST,
    ensures
        reading == read(encode_utf8(expression@), length),
{
    let bytes: &[u8] = expression.as_bytes();
    let mut reading = Reading {
        mode: Mode::Plain,
        last: Last::Nothing,
        grouped: false,
        folded: false,
        before: 1,
        ways: 1,
        entry: 1,
        others: 0,
        looking: false,
        any_empty: false,
        before_empty: true,
        empty: true,
        entry_empty: true,
        others_empty: false,
        fails: 0,
        least: 0,
        most: 0,
    };
    let mut i: usize = 0;
    assert(bytes@.take(0) =~= seq![]);
    while i < bytes.len()
        invariant
            i <= bytes@.len(),
            length <= MOST,
            reading == read(bytes@.take(i as int), length),
        decreases bytes@.len() - i,
    {
        assert(bytes@.take(i + 1).drop_last() =~= bytes@.take(i as int));
        assert(bytes@.take(i + 1).last() == bytes@[i as int]);
        reading = take_byte(reading, bytes[i], length);
        i += 1;
    }
    assert(bytes@.take(i as int) =~= bytes@);
    reading
}

/// Whether the failures of an expression with a text of so many bytes are known, and are
/// not too many.
pub fn check_expression(expression: &str, length: u64) -> (fits: bool)
    ensures
        fits == is_bounded(encode_utf8(expression@), capped(length as int)),
{
    let reading = read_expression(expression, plus(length, 0));
    reading.mode == Mode::Plain && !reading.grouped && reading.fails <= RETRIES
}

/// Whether an expression is one that failures are counted of, and always matches a character
/// at least.
pub fn check_solid(expression: &str) -> (solid: bool)
    ensures
        solid == is_solid(encode_utf8(expression@)),
{
    let reading = read_expression(expression, 0);
    reading.mode == Mode::Plain && !reading.grouped && !reading.empty && !reading.any_empty
}

/// Capping a number: below [`MOST`] it stays, and from there on it is that.
pub proof fn numbers_are_capped(number: nat)
    ensures
        number < 10_000_000 ==> capped(number as int) == number,
        number >= 10_000_000 ==> capped(number as int) == 10_000_000,
{
}

/// An expression is bounded if it is one that can be read, has no open group, and a match
/// fails 5,000,000 times at most. It always matches a character if it can be read, has no open
/// group, and no alternative can match nothing.
pub proof fn expressions_that_are_bounded(expression: Seq<u8>, length: u64)
    ensures
        is_bounded(expression, length) <==> {
            let reading = read(expression, length);
            reading.mode == Mode::Plain && !reading.grouped && reading.fails <= 5_000_000
        },
        is_solid(expression) <==> {
            let reading = read(expression, 0);
            reading.mode == Mode::Plain && !reading.grouped && !reading.empty && !reading.any_empty
        },
{
}

/// What cannot be read is neither bounded nor always matches a character, whatever follows.
pub proof fn nothing_makes_up_for_what_cannot_be_read(
    expression: Seq<u8>,
    rest: Seq<u8>,
    length: u64,
)
    requires
        read(expression, length).mode == Mode::Stopped,
    ensures
        read(expression + rest, length).mode == Mode::Stopped,
        !is_bounded(expression + rest, length),
        length == 0 ==> !is_solid(expression + rest),
    decreases rest.len(),
{
    if rest.len() == 0 {
        assert(expression + rest =~= expression);
    } else {
        nothing_makes_up_for_what_cannot_be_read(expression, rest.drop_last(), length);
        assert((expression + rest).drop_last() =~= expression + rest.drop_last());
    }
}

/// An expression of letters and digits matches in one way, and can fail twice for each of
/// them; it is bounded as long as these are not too many, and matches a character if it has
/// one.
pub proof fn plain_expressions_match_in_one_way(expression: Seq<u8>, length: u64)
    requires
        forall|i: int|
            0 <= i < expression.len() ==> 48 <= #[trigger] expression[i] <= 57 || 65
                <= expression[i] <= 90 || 97 <= expression[i] <= 122,
    ensures
        ({
            let reading = read(expression, length);
            &&& reading.mode == Mode::Plain && !reading.grouped && !reading.folded
            &&& reading.ways == 1
            &&& reading.before == 1
            &&& !reading.any_empty
            &&& reading.empty == (expression.len() == 0)
            &&& reading.fails == capped(2int * expression.len())
            &&& expression.len() > 0 ==> reading.last == Last::Unit
        }),
        is_bounded(expression, length) <==> 2 * expression.len() <= 5_000_000,
        is_solid(expression) <==> expression.len() > 0,
{
    lemma_plain(expression, length);
    lemma_plain(expression, 0);
}

proof fn lemma_plain(expression: Seq<u8>, length: u64)
    requires
        forall|i: int|
            0 <= i < expression.len() ==> 48 <= #[trigger] expression[i] <= 57 || 65
                <= expression[i] <= 90 || 97 <= expression[i] <= 122,
    ensures
        ({
            let reading = read(expression, length);
            &&& reading.mode == Mode::Plain && !reading.grouped && !reading.folded
            &&& reading.ways == 1
            &&& reading.before == 1
            &&& !reading.any_empty
            &&& reading.empty == (expression.len() == 0)
            &&& reading.fails == capped(2int * expression.len())
            &&& expression.len() > 0 ==> reading.last == Last::Unit
        }),
    decreases expression.len(),
{
    if expression.len() > 0 {
        let before = expression.drop_last();
        assert forall|i: int| 0 <= i < before.len() implies 48 <= #[trigger] before[i] <= 57 || 65
            <= before[i] <= 90 || 97 <= before[i] <= 122 by {
            assert(before[i] == expression[i]);
        }
        lemma_plain(before, length);
        assert(expression.last() == expression[expression.len() - 1]);
    }
}

/// A character that is repeated with `*`, `+` or `?` matches in as many ways as there are
/// lengths for it: any number up to the length of the text, or one or none. It need not match
/// with `*` and `?`, but with `+` it must.
pub proof fn repetitions_match_in_many_ways(expression: Seq<u8>, length: u64)
    requires
        read(expression, length).mode == Mode::Plain,
        read(expression, length).last == Last::Unit,
    ensures
        ({
            let reading = read(expression, length);
            let star = read(expression.push(42), length);
            let plus = read(expression.push(43), length);
            let question = read(expression.push(63), length);
            let many = capped(reading.before * capped(length + 2));
            &&& star.mode == Mode::Plain && plus.mode == Mode::Plain && question.mode
                == Mode::Plain
            &&& star.ways == many && plus.ways == many
            &&& question.ways == capped(reading.before * 2)
            &&& star.fails == capped(reading.fails as int) && plus.fails == star.fails
                && question.fails == star.fails
            &&& star.empty == reading.before_empty && question.empty == reading.before_empty
            &&& !plus.empty
        }),
{
    assert(expression.push(42).drop_last() =~= expression);
    assert(expression.push(43).drop_last() =~= expression);
    assert(expression.push(63).drop_last() =~= expression);
    let before = read(expression, length).before as int;
    assert(before * 0 == 0) by (nonlinear_arith);
}

/// A group within a group, and the end of a group that is not open, cannot be read.
pub proof fn groups_are_not_nested(expression: Seq<u8>, length: u64)
    requires
        read(expression, length).mode == Mode::Plain,
    ensures
        read(expression, length).grouped ==> read(expression.push(40), length).mode
            == Mode::Stopped,
        !read(expression, length).grouped ==> read(expression.push(41), length).mode
            == Mode::Stopped,
        !read(expression, length).grouped ==> read(expression.push(40), length).grouped,
        read(expression, length).grouped ==> !read(expression.push(41), length).grouped,
{
    assert(expression.push(40).drop_last() =~= expression);
    assert(expression.push(41).drop_last() =~= expression);
}

/// A character matches in as many ways as what came before it, and each of them can fail
/// twice; where case is ignored, in 16 times as many, which can fail 32 times. It is what a
/// mark that follows repeats, unless case is ignored. Characters are letters, digits and most
/// signs, with the rest of a character of more than one byte left out.
pub proof fn characters_match_once(expression: Seq<u8>, byte: u8, length: u64)
    requires
        read(expression, length).mode == Mode::Plain,
        byte != 40 && byte != 41 && byte != 42 && byte != 43 && byte != 63 && byte != 124,
        byte != 91 && byte != 92 && byte != 123 && byte != 36 && byte != 94,
    ensures
        ({
            let reading = read(expression, length);
            let next = read(expression.push(byte), length);
            let rest = 128 <= byte < 192;
            &&& reading.folded && byte >= 128 ==> next == (Reading {
                mode: Mode::Stopped,
                ..reading
            })
            &&& !reading.folded && rest ==> next == reading
            &&& !reading.folded && !rest ==> next == (Reading {
                last: Last::Unit,
                before: reading.ways,
                before_empty: reading.empty,
                empty: false,
                fails: capped(reading.fails + capped(2 * reading.ways)),
                ..reading
            })
            &&& reading.folded && byte < 128 ==> next == (Reading {
                last: Last::Nothing,
                before: reading.ways,
                before_empty: reading.empty,
                empty: false,
                ways: capped(16 * reading.ways),
                fails: capped(reading.fails + capped(32 * reading.ways)),
                ..reading
            })
        }),
{
    assert(expression.push(byte).drop_last() =~= expression);
}

/// What marks a place can fail twice in each way, and cannot be repeated.
pub proof fn places_can_fail(expression: Seq<u8>, byte: u8, length: u64)
    requires
        read(expression, length).mode == Mode::Plain && (byte == 36 || byte == 94)
            || read(expression, length).mode == Mode::Escape && (byte == 98 || byte == 66 || byte
            == 65 || byte == 122 || byte == 90 || byte == 71),
    ensures
        ({
            let reading = read(expression, length);
            read(expression.push(byte), length) == (Reading {
                mode: Mode::Plain,
                last: Last::Nothing,
                fails: capped(reading.fails + capped(2 * reading.ways)),
                ..reading
            })
        }),
{
    assert(expression.push(byte).drop_last() =~= expression);
}

/// A group starts with what came before it, and ends with the ways of all its alternatives;
/// opening and closing it can fail twice in each way. It can match nothing if one of its
/// alternatives can, and where it only looks ahead, if what came before it can.
pub proof fn groups_match_by_their_alternatives(expression: Seq<u8>, length: u64)
    requires
        read(expression, length).mode == Mode::Plain,
    ensures
        ({
            let reading = read(expression, length);
            &&& !reading.grouped ==> read(expression.push(40), length) == (Reading {
                mode: Mode::Open,
                last: Last::Nothing,
                grouped: true,
                folded: false,
                entry: reading.ways,
                others: 0,
                looking: false,
                entry_empty: reading.empty,
                others_empty: false,
                fails: capped(reading.fails + capped(2 * reading.ways)),
                ..reading
            })
            &&& reading.grouped ==> read(expression.push(41), length) == (Reading {
                last: Last::Group,
                grouped: false,
                folded: false,
                before: reading.entry,
                before_empty: reading.entry_empty,
                empty: if reading.looking {
                    reading.entry_empty
                } else {
                    reading.others_empty || reading.empty
                },
                ways: capped(reading.others + reading.ways),
                fails: capped(
                    reading.fails + capped(2 * capped(reading.others + reading.ways)),
                ),
                ..reading
            })
            &&& reading.grouped ==> read(expression.push(124), length) == (Reading {
                last: Last::Nothing,
                others: capped(reading.others + reading.ways),
                ways: reading.entry,
                others_empty: reading.others_empty || reading.empty,
                empty: reading.entry_empty,
                ..reading
            })
            &&& !reading.grouped ==> read(expression.push(124), length) == (Reading {
                last: Last::Nothing,
                ways: 1,
                any_empty: reading.any_empty || reading.empty,
                empty: true,
                ..reading
            })
        }),
{
    assert(expression.push(40).drop_last() =~= expression);
    assert(expression.push(41).drop_last() =~= expression);
    assert(expression.push(124).drop_last() =~= expression);
}

/// The kinds of groups: plain and atomic ones, those that look ahead, and those that ignore
/// case. Others cannot be read.
pub proof fn groups_are_of_five_kinds(expression: Seq<u8>, byte: u8, length: u64)
    ensures
        ({
            let reading = read(expression, length);
            let next = read(expression.push(byte), length);
            let stopped = Reading { mode: Mode::Stopped, ..reading };
            &&& reading.mode == Mode::Open && byte == 63 ==> next == (Reading {
                mode: Mode::Kind,
                ..reading
            })
            &&& reading.mode == Mode::Kind ==> next == (if byte == 58 || byte == 62 {
                Reading { mode: Mode::Plain, looking: false, ..reading }
            } else if byte == 61 || byte == 33 {
                Reading { mode: Mode::Plain, looking: true, ..reading }
            } else if byte == 105 {
                Reading { mode: Mode::Fold, ..reading }
            } else {
                stopped
            })
            &&& reading.mode == Mode::Fold ==> next == (if byte == 58 {
                Reading { mode: Mode::Plain, folded: true, ..reading }
            } else {
                stopped
            })
        }),
{
    assert(expression.push(byte).drop_last() =~= expression);
}

/// Marks that repeat. A group can be made optional, and a repetition lazy or possessive; an
/// interval that is made lazy may be left out. Nothing else can be repeated.
pub proof fn marks_repeat_what_came_before(expression: Seq<u8>, byte: u8, length: u64)
    requires
        read(expression, length).mode == Mode::Plain,
        byte == 42 || byte == 43 || byte == 63,
    ensures
        ({
            let reading = read(expression, length);
            let next = read(expression.push(byte), length);
            &&& reading.last == Last::Unit ==> next == (Reading {
                last: Last::Repeat,
                empty: byte != 43 && reading.before_empty,
                ways: capped(
                    reading.before * (if byte == 63 {
                        2
                    } else {
                        capped(length + 2)
                    }),
                ),
                fails: capped(reading.fails as int),
                ..reading
            })
            &&& reading.last == Last::Group && byte == 63 ==> next == (Reading {
                last: Last::Nothing,
                empty: reading.before_empty,
                ways: capped(reading.before + reading.ways),
                ..reading
            })
            &&& reading.last == Last::Repeat && byte != 42 ==> next == (Reading {
                last: Last::Nothing,
                ..reading
            })
            &&& reading.last == Last::Interval && byte == 63 ==> next == (Reading {
                last: Last::Nothing,
                empty: reading.before_empty,
                ..reading
            })
            &&& reading.last == Last::Nothing || (reading.last == Last::Group && byte != 63) || (
            reading.last == Last::Repeat && byte == 42) || (reading.last == Last::Interval && byte
                != 63) ==> next == (Reading { mode: Mode::Stopped, ..reading })
        }),
{
    assert(expression.push(byte).drop_last() =~= expression);
    let before = read(expression, length).before as int;
    assert(before * 0 == 0) by (nonlinear_arith);
}

/// Intervals: a character is repeated a number of times, or between two numbers, or from a
/// number on. It matches in two ways more than the greatest number, or than the length of the
/// text where there is none, and can fail in each. It need not match if the least is 0.
pub proof fn intervals_repeat_between_numbers(expression: Seq<u8>, byte: u8, length: u64)
    ensures
        ({
            let reading = read(expression, length);
            let next = read(expression.push(byte), length);
            let stopped = Reading { mode: Mode::Stopped, ..reading };
            let digit = 48 <= byte <= 57;
            let longer = |number: u64| capped(capped(10 * number) + (byte - 48));
            let repeated = |ways: u64, fails: u64|
                Reading {
                    mode: Mode::Plain,
                    last: Last::Interval,
                    empty: reading.least == 0 && reading.before_empty,
                    ways: capped(reading.before * ways),
                    fails: capped(reading.fails + capped(reading.before * fails)),
                    ..reading
                };
            &&& reading.mode == Mode::Plain && byte == 123 ==> next == (if reading.last
                == Last::Unit {
                Reading { mode: Mode::LeastStart, least: 0, most: 0, ..reading }
            } else {
                stopped
            })
            &&& reading.mode == Mode::LeastStart ==> next == (if digit {
                Reading { mode: Mode::Least, least: longer(0), ..reading }
            } else {
                stopped
            })
            &&& reading.mode == Mode::Least ==> next == (if digit {
                Reading { least: longer(reading.least), ..reading }
            } else if byte == 44 {
                Reading { mode: Mode::MostStart, ..reading }
            } else if byte == 125 {
                repeated(capped(reading.least + 2), capped(reading.least + 2))
            } else {
                stopped
            })
            &&& reading.mode == Mode::MostStart ==> next == (if digit {
                Reading { mode: Mode::Most, most: longer(0), ..reading }
            } else if byte == 125 {
                repeated(capped(length + 2), capped(reading.least + 2))
            } else {
                stopped
            })
            &&& reading.mode == Mode::Most ==> next == (if digit {
                Reading { most: longer(reading.most), ..reading }
            } else if byte == 125 && reading.least <= reading.most {
                repeated(capped(reading.most + 2), capped(reading.most + 2))
            } else {
                stopped
            })
        }),
{
    assert(expression.push(byte).drop_last() =~= expression);
}

/// Classes, properties and what follows a backslash match one character, as one that stands
/// for itself does. What is not known cannot be read, and neither can a class in a class, an
/// empty one, nor any of these where case is ignored.
pub proof fn classes_match_a_character(expression: Seq<u8>, byte: u8, length: u64)
    ensures
        ({
            let reading = read(expression, length);
            let next = read(expression.push(byte), length);
            let in_mode = |mode: Mode| Reading { mode, ..reading };
            let one = Reading {
                mode: Mode::Plain,
                last: if reading.folded {
                    Last::Nothing
                } else {
                    Last::Unit
                },
                before: reading.ways,
                before_empty: reading.empty,
                empty: false,
                ways: if reading.folded {
                    capped(16 * reading.ways)
                } else {
                    reading.ways
                },
                fails: capped(
                    reading.fails + capped(
                        (if reading.folded {
                            32
                        } else {
                            2int
                        }) * reading.ways,
                    ),
                ),
                ..reading
            };
            let class_start = if byte == 91 || byte == 93 {
                Mode::Stopped
            } else if byte == 92 {
                Mode::ClassEscape
            } else {
                Mode::Class
            };
            let sign = 33 <= byte <= 47 || 58 <= byte <= 64 || 91 <= byte <= 96 || 123 <= byte
                <= 126;
            let kind = byte == 115 || byte == 83 || byte == 100 || byte == 68 || byte == 119 || byte
                == 87 || byte == 104 || byte == 72 || byte == 114 || byte == 110 || byte == 116
                || byte == 102 || byte == 118 || byte == 97 || byte == 101;
            let place = byte == 98 || byte == 66 || byte == 65 || byte == 122 || byte == 90 || byte
                == 71;
            let named = 48 <= byte <= 57 || 65 <= byte <= 90 || 97 <= byte <= 122 || byte == 32
                || byte == 45 || byte == 94 || byte == 95;
            let property = byte == 112 || byte == 80;
            &&& reading.mode == Mode::Plain && byte == 91 ==> next == in_mode(
                if reading.folded {
                    Mode::Stopped
                } else {
                    Mode::ClassStart
                },
            )
            &&& reading.mode == Mode::Plain && byte == 92 ==> next == in_mode(
                if reading.folded {
                    Mode::Stopped
                } else {
                    Mode::Escape
                },
            )
            &&& reading.mode == Mode::Escape && (sign || kind) ==> next == one
            &&& reading.mode == Mode::Escape && !sign && !kind && !place ==> next == in_mode(
                if property {
                    Mode::Property
                } else {
                    Mode::Stopped
                },
            )
            &&& reading.mode == Mode::Property ==> next == in_mode(
                if byte == 123 {
                    Mode::Name
                } else {
                    Mode::Stopped
                },
            )
            &&& reading.mode == Mode::Name ==> next == (if byte == 125 {
                one
            } else if named {
                reading
            } else {
                in_mode(Mode::Stopped)
            })
            &&& reading.mode == Mode::ClassStart ==> next == in_mode(
                if byte == 94 {
                    Mode::ClassInverted
                } else {
                    class_start
                },
            )
            &&& reading.mode == Mode::ClassInverted ==> next == in_mode(class_start)
            &&& reading.mode == Mode::Class ==> next == (if byte == 93 {
                one
            } else if byte == 91 {
                in_mode(Mode::Stopped)
            } else if byte == 92 {
                in_mode(Mode::ClassEscape)
            } else {
                reading
            })
            &&& reading.mode == Mode::ClassEscape ==> next == in_mode(
                if sign || kind {
                    Mode::Class
                } else if property {
                    Mode::ClassProperty
                } else {
                    Mode::Stopped
                },
            )
            &&& reading.mode == Mode::ClassProperty ==> next == in_mode(
                if byte == 123 {
                    Mode::ClassName
                } else {
                    Mode::Stopped
                },
            )
            &&& reading.mode == Mode::ClassName ==> next == (if byte == 125 {
                in_mode(Mode::Class)
            } else if named {
                reading
            } else {
                in_mode(Mode::Stopped)
            })
        }),
{
    assert(expression.push(byte).drop_last() =~= expression);
}

/// An expression that has just opened a group goes on as any other, unless it says of which
/// kind the group is.
pub proof fn groups_that_are_open_go_on(expression: Seq<u8>, byte: u8, length: u64)
    requires
        read(expression, length).mode == Mode::Open,
        byte != 63,
    ensures
        read(expression.push(byte), length) == after_plain(
            read(expression, length),
            byte,
            length,
        ),
{
    assert(expression.push(byte).drop_last() =~= expression);
}

/// An empty expression matches in one way, which cannot fail, and matches nothing.
pub proof fn empty_expressions_match_nothing(length: u64)
    ensures
        ({
            let reading = read(seq![], length);
            &&& reading.mode == Mode::Plain && reading.last == Last::Nothing && !reading.grouped
                && !reading.folded
            &&& reading.ways == 1 && reading.before == 1 && reading.fails == 0
            &&& reading.empty && reading.before_empty && !reading.any_empty
        }),
        is_bounded(seq![], length),
        !is_solid(seq![]),
{
}

}
