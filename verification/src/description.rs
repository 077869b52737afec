//! The descriptions of tokenizers.

use crate::growth;
use crate::json;
use crate::json::{Json, JsonTree};
use crate::parts;
use crate::parts::Part;
use crate::vocabulary;
use vstd::prelude::*;

verus! {

/// Where a reader of a JSON text is, and what it has come across.
pub struct Scan {
    /// How many lists and objects it is in.
    pub depth: int,
    /// Whether it is in a string.
    pub inside: bool,
    /// Whether the next byte of the string is escaped.
    pub escaped: bool,
    /// The string of the outermost object that it is in, or came across last.
    pub name: Seq<u8>,
    /// How many entries of the outermost object are named `model`.
    pub models: nat,
    /// How many entries of the outermost object are named `normalizer`.
    pub normalizers: nat,
}

/// The bytes of `model`.
pub open spec fn model_name() -> Seq<u8> {
    seq![109, 111, 100, 101, 108]
}

/// The bytes of `normalizer`.
pub open spec fn normalizer_name() -> Seq<u8> {
    seq![110, 111, 114, 109, 97, 108, 105, 122, 101, 114]
}

/// The value of a hexadecimal digit, and 16 for what is none.
pub open spec fn hex_digit(byte: u8) -> u32 {
    if 48 <= byte <= 57 {
        (byte - 48) as u32
    } else if 65 <= byte <= 70 {
        (byte - 55) as u32
    } else if 97 <= byte <= 102 {
        (byte - 87) as u32
    } else {
        16
    }
}

/// Whether a string starts with an escape that stands for a letter.
pub open spec fn escapes(string: Seq<u8>, letter: u8) -> bool {
    &&& string.len() >= 6 && string[0] == 92 && string[1] == 117
    &&& hex_digit(string[2]) == 0 && hex_digit(string[3]) == 0
    &&& hex_digit(string[4]) < 16 && hex_digit(string[5]) < 16
    &&& 16 * hex_digit(string[4]) + hex_digit(string[5]) == letter
}

/// Whether a string of a JSON text, as it is written there, is a name made of letters.
pub open spec fn spells(string: Seq<u8>, name: Seq<u8>) -> bool
    decreases name.len(),
{
    if name.len() == 0 {
        string.len() == 0
    } else if escapes(string, name[0]) {
        spells(string.skip(6), name.skip(1))
    } else {
        string.len() > 0 && string[0] == name[0] && spells(string.skip(1), name.skip(1))
    }
}

/// Where a reader is after one byte more.
pub open spec fn advanced(scan: Scan, byte: u8) -> Scan {
    if scan.inside && (scan.escaped || byte != 34) {
        Scan {
            escaped: !scan.escaped && byte == 92,
            name: if scan.depth == 1 {
                scan.name.push(byte)
            } else {
                scan.name
            },
            ..scan
        }
    } else if scan.inside {
        Scan { inside: false, ..scan }
    } else if byte == 34 {
        Scan { inside: true, name: Seq::empty(), ..scan }
    } else if byte == 58 && scan.depth == 1 {
        Scan {
            models: if spells(scan.name, model_name()) {
                scan.models + 1
            } else {
                scan.models
            },
            normalizers: if spells(scan.name, normalizer_name()) {
                scan.normalizers + 1
            } else {
                scan.normalizers
            },
            ..scan
        }
    } else if byte == 123 || byte == 91 {
        Scan { depth: scan.depth + 1, ..scan }
    } else if byte == 125 || byte == 93 {
        Scan { depth: scan.depth - 1, ..scan }
    } else {
        scan
    }
}

/// Where a reader is at the end of a text.
pub open spec fn scanned(text: Seq<u8>) -> Scan
    decreases text.len(),
{
    if text.len() == 0 {
        Scan {
            depth: 0,
            inside: false,
            escaped: false,
            name: Seq::empty(),
            models: 0,
            normalizers: 0,
        }
    } else {
        advanced(scanned(text.drop_last()), text.last())
    }
}

/// Whether the description of a tokenizer names its model once and its normalizer once,
/// at most. What is named again is read again, whatever comes of it in the end.
pub open spec fn named_once(file: Seq<u8>) -> bool {
    scanned(file).models <= 1 && scanned(file).normalizers <= 1
}

/// Whether a normalizer can be put to an added token.
pub open spec fn token_fits(normalizer: JsonTree, token: JsonTree) -> bool {
    token.at("content"@) matches JsonTree::Text(content) ==> growth::normalizer_fits(
        normalizer,
        content,
    )
}

/// Whether the normalizer of a tokenizer can be put to the tokens that the tokenizer adds.
pub open spec fn added_tokens_fit(tokenizer: JsonTree) -> bool {
    tokenizer.at("added_tokens"@) matches JsonTree::Array(tokens) ==> forall|i: int|
        0 <= i < tokens.len() ==> token_fits(tokenizer.at("normalizer"@), #[trigger] tokens[i])
}

/// Whether a tokenizer can be read from its description: the merges of its model can be
/// done, there are ids for the tokens that it adds, and its normalizer is in order and can
/// be put to them.
pub open spec fn can_be_read(file: Seq<u8>) -> bool {
    json::json_text(file) matches Ok(tokenizer) && {
        &&& named_once(file)
        &&& vocabulary::merges_in_order(tokenizer.at("model"@))
        &&& vocabulary::ids_left(tokenizer, 0)
        &&& parts::in_order(Part::Normalizer, tokenizer.at("normalizer"@))
        &&& added_tokens_fit(tokenizer)
    }
}

/// The value of a hexadecimal digit, and 16 for what is none.
fn hex_value(byte: u8) -> (value: u32)
    ensures
        value == hex_digit(byte),
{
    if 48 <= byte && byte <= 57 {
        (byte - 48) as u32
    } else if 65 <= byte && byte <= 70 {
        (byte - 55) as u32
    } else if 97 <= byte && byte <= 102 {
        (byte - 87) as u32
    } else {
        16
    }
}

/// Whether an escape that stands for a letter is at a place of a string.
fn check_escape(string: &Vec<u8>, at: usize, letter: u8) -> (fits: bool)
    requires
        at <= string@.len(),
    ensures
        fits == escapes(string@.skip(at as int), letter),
{
    if string.len() - at < 6 || string[at] != 92 || string[at + 1] != 117 {
        return false;
    }
    let (high, low): (u32, u32) = (hex_value(string[at + 4]), hex_value(string[at + 5]));
    hex_value(string[at + 2]) == 0 && hex_value(string[at + 3]) == 0 && high < 16 && low < 16 && 16
        * high + low == letter as u32
}

/// Whether a string of a JSON text, as it is written there, is a name made of letters.
fn check_spelling(string: &Vec<u8>, name: &Vec<u8>) -> (fits: bool)
    ensures
        fits == spells(string@, name@),
{
    let mut i: usize = 0;
    let mut j: usize = 0;
    assert(string@.skip(0) =~= string@);
    assert(name@.skip(0) =~= name@);
    while j < name.len()
        invariant
            i <= string@.len(),
            j <= name@.len(),
            spells(string@, name@) == spells(string@.skip(i as int), name@.skip(j as int)),
        decreases name@.len() - j,
    {
        assert(name@.skip(j as int).skip(1) =~= name@.skip(j + 1));
        assert(string.len() <= usize::MAX);
        if check_escape(string, i, name[j]) {
            assert(string@.skip(i as int).skip(6) =~= string@.skip(i + 6));
            i += 6;
        } else if i < string.len() && string[i] == name[j] {
            assert(string@.skip(i as int).skip(1) =~= string@.skip(i + 1));
            i += 1;
        } else {
            return false;
        }
        j += 1;
    }
    i == string.len()
}

/// Whether the description of a tokenizer names its model once and its normalizer once,
/// at most.
fn check_names(file: &[u8]) -> (fits: bool)
    ensures
        fits == named_once(file@),
{
    let model: Vec<u8> = vec![109, 111, 100, 101, 108];
    let normalizer: Vec<u8> = vec![110, 111, 114, 109, 97, 108, 105, 122, 101, 114];
    assert(model@ =~= model_name());
    assert(normalizer@ =~= normalizer_name());
    let mut depth: i128 = 0;
    let mut inside: bool = false;
    let mut escaped: bool = false;
    let mut name: Vec<u8> = Vec::new();
    let mut models: usize = 0;
    let mut normalizers: usize = 0;
    let mut i: usize = 0;
    assert(file@.take(0) =~= seq![]);
    assert(name@ =~= Seq::empty());
    while i < file.len()
        invariant
            i <= file@.len(),
            model@ == model_name(),
            normalizer@ == normalizer_name(),
            -(i as int) <= depth <= i,
            models <= i,
            normalizers <= i,
            scanned(file@.take(i as int)) == (Scan {
                depth: depth as int,
                inside,
                escaped,
                name: name@,
                models: models as nat,
                normalizers: normalizers as nat,
            }),
        decreases file@.len() - i,
    {
        let byte: u8 = file[i];
        assert(file@.take(i + 1).drop_last() =~= file@.take(i as int));
        assert(file@.take(i + 1).last() == byte);
        if inside && (escaped || byte != 34) {
            escaped = !escaped && byte == 92;
            if depth == 1 {
                name.push(byte);
            }
        } else if inside {
            inside = false;
        } else if byte == 34 {
            inside = true;
            name = Vec::new();
            assert(name@ =~= Seq::empty());
        } else if byte == 58 && depth == 1 {
            if check_spelling(&name, &model) {
                models += 1;
            }
            if check_spelling(&name, &normalizer) {
                normalizers += 1;
            }
        } else if byte == 123 || byte == 91 {
            depth += 1;
        } else if byte == 125 || byte == 93 {
            depth -= 1;
        }
        i += 1;
    }
    assert(file@.take(i as int) =~= file@);
    models <= 1 && normalizers <= 1
}

/// Whether the normalizer of a tokenizer can be put to the tokens that the tokenizer adds.
fn check_added_tokens(tokenizer: &Json) -> (fits: bool)
    ensures
        fits == added_tokens_fit(tokenizer@),
{
    let normalizer = match tokenizer.at("normalizer") {
        Some(normalizer) => normalizer,
        None => return true,
    };
    let tokens = match tokenizer.array_at("added_tokens") {
        Some(tokens) => tokens,
        None => return true,
    };
    let ghost tree = tokenizer@;
    let mut i: usize = 0;
    while i < tokens.len()
        invariant
            i <= tokens@.len(),
            tree == tokenizer@,
            normalizer@ == tree.at("normalizer"@),
            tree.at("added_tokens"@) is Array,
            tree.at("added_tokens"@)->Array_0.len() == tokens@.len(),
            forall|j: int|
                0 <= j < tokens@.len() ==> tree.at("added_tokens"@)->Array_0[j]
                    == #[trigger] tokens@[j]@,
            forall|j: int|
                0 <= j < i ==> token_fits(
                    normalizer@,
                    #[trigger] tree.at("added_tokens"@)->Array_0[j],
                ),
        decreases tokens@.len() - i,
    {
        assert(tree.at("added_tokens"@)->Array_0[i as int] == tokens@[i as int]@);
        if let Some(content) = tokens[i].text_at("content") {
            if !growth::check_normalizer(normalizer, content.as_str()) {
                assert(!token_fits(
                    tree.at("normalizer"@),
                    tree.at("added_tokens"@)->Array_0[i as int],
                ));
                return false;
            }
        }
        i += 1;
    }
    true
}

/// Whether a tokenizer can be read from its description, which is given as a text and as
/// the document that the text holds.
pub(crate) fn check_description(file: &[u8], tokenizer: &Json) -> (fits: bool)
    requires
        json::json_text(file@) == Ok::<JsonTree, Seq<char>>(tokenizer@),
    ensures
        fits == can_be_read(file@),
{
    let merges_fit: bool = match tokenizer.at("model") {
        Some(model) => vocabulary::check_merges(model),
        None => true,
    };
    let normalizer_fits: bool = match tokenizer.at("normalizer") {
        Some(normalizer) => parts::check_part(Part::Normalizer, normalizer),
        None => true,
    };
    check_names(file) && merges_fit && vocabulary::check_ids(tokenizer, 0) && normalizer_fits
        && check_added_tokens(tokenizer)
}

/// The names that are looked for.
pub proof fn names_that_are_looked_for(i: int)
    ensures
        model_name().len() == "model"@.len(),
        0 <= i < model_name().len() ==> model_name()[i] == "model"@[i] as int,
        normalizer_name().len() == "normalizer"@.len(),
        0 <= i < normalizer_name().len() ==> normalizer_name()[i] == "normalizer"@[i] as int,
{
    reveal_strlit("model");
    reveal_strlit("normalizer");
}

/// A name is spelled letter by letter: a letter is written as it is, or by an escape with its
/// number in four hexadecimal digits, and nothing is left over.
pub proof fn letters_are_written_or_escaped(
    string: Seq<u8>,
    name: Seq<u8>,
    letter: u8,
    high: u8,
    low: u8,
    other: u8,
)
    requires
        letter != 92,
    ensures
        spells(string, seq![]) <==> string.len() == 0,
        !spells(seq![], seq![letter] + name),
        spells(seq![letter] + string, seq![letter] + name) <==> spells(string, name),
        other != letter && other != 92 ==> !spells(seq![other] + string, seq![letter] + name),
        hex_digit(high) < 16 && hex_digit(low) < 16 && 16 * hex_digit(high) + hex_digit(low)
            == letter ==> (spells(
            seq![92u8, 117, 48, 48, high, low] + string,
            seq![letter] + name,
        ) <==> spells(string, name)),
        hex_digit(high) < 16 && hex_digit(low) < 16 && 16 * hex_digit(high) + hex_digit(low)
            != letter ==> !spells(
            seq![92u8, 117, 48, 48, high, low] + string,
            seq![letter] + name,
        ),
{
    let longer = seq![letter] + name;
    assert(longer.skip(1) =~= name);
    assert((seq![letter] + string).skip(1) =~= string);
    assert((seq![92u8, 117, 48, 48, high, low] + string).skip(6) =~= string);
    assert(longer[0] == letter);
}

/// The digits and the letters up to `f`, small or capital, are hexadecimal digits.
pub proof fn hexadecimal_digits(value: u8)
    requires
        value < 16,
    ensures
        value < 10 ==> hex_digit((48 + value) as u8) == value,
        value >= 10 ==> hex_digit((55 + value) as u8) == value && hex_digit((87 + value) as u8)
            == value,
        forall|byte: u8|
            byte < 48 || 57 < byte < 65 || 70 < byte < 97 || 102 < byte ==> #[trigger] hex_digit(
                byte,
            ) == 16,
{
}

/// How a reader of a JSON text goes on. Quotes open and close strings, but for escaped ones;
/// brackets and braces outside strings open and close lists and objects; and a colon in the
/// outermost object ends a name, which counts where it is one that is looked for.
pub proof fn readers_keep_track(text: Seq<u8>, byte: u8)
    ensures
        ({
            let before = scanned(text);
            let after = scanned(text.push(byte));
            &&& before.inside && (before.escaped || byte != 34) ==> {
                &&& after.inside && after.escaped == (!before.escaped && byte == 92)
                &&& after.depth == before.depth && after.models == before.models
                    && after.normalizers == before.normalizers
                &&& before.depth == 1 ==> after.name == before.name.push(byte)
                &&& before.depth != 1 ==> after.name == before.name
            }
            &&& before.inside && !before.escaped && byte == 34 ==> {
                &&& !after.inside && after.name == before.name
                &&& after.depth == before.depth && after.models == before.models
                    && after.normalizers == before.normalizers
            }
            &&& !before.inside ==> {
                &&& after.inside == (byte == 34)
                &&& byte == 34 ==> after.name.len() == 0
                &&& byte != 34 ==> after.name == before.name
                &&& after.depth == before.depth + (if byte == 123 || byte == 91 {
                    1int
                } else if byte == 125 || byte == 93 {
                    -1
                } else {
                    0
                })
                &&& after.models == before.models + (if byte == 58 && before.depth == 1 && spells(
                    before.name,
                    model_name(),
                ) {
                    1int
                } else {
                    0
                })
                &&& after.normalizers == before.normalizers + (if byte == 58 && before.depth == 1
                    && spells(before.name, normalizer_name()) {
                    1int
                } else {
                    0
                })
            }
        }),
        scanned(Seq::empty()).depth == 0,
        scanned(Seq::empty()).models == 0,
        scanned(Seq::empty()).normalizers == 0,
        !scanned(Seq::empty()).inside,
{
    assert(text.push(byte).drop_last() =~= text);
}

/// A tokenizer can be read from its description if that is a document with one model and one
/// normalizer at most, whose merges can be done, whose ids suffice, whose normalizer is in
/// order, and whose normalizer can be put to every token that the description adds.
pub proof fn descriptions_that_can_be_read(file: Seq<u8>)
    ensures
        can_be_read(file) <==> {
            let tree = json::json_text(file)->Ok_0;
            let tokens = tree.at("added_tokens"@);
            &&& json::json_text(file) is Ok
            &&& scanned(file).models < 2
            &&& scanned(file).normalizers < 2
            &&& vocabulary::merges_in_order(tree.at("model"@))
            &&& vocabulary::ids_left(tree, 0)
            &&& parts::in_order(Part::Normalizer, tree.at("normalizer"@))
            &&& tokens is Array ==> forall|i: int|
                0 <= i < tokens->Array_0.len() ==> ((#[trigger] tokens->Array_0[i]).at(
                    "content"@,
                ) matches JsonTree::Text(content) ==> growth::normalizer_fits(
                    tree.at("normalizer"@),
                    content,
                ))
        },
{
    if json::json_text(file) is Ok {
        let tree = json::json_text(file)->Ok_0;
        if let JsonTree::Array(tokens) = tree.at("added_tokens"@) {
            assert forall|i: int| 0 <= i < tokens.len() implies token_fits(
                tree.at("normalizer"@),
                #[trigger] tokens[i],
            ) == (tokens[i].at("content"@) matches JsonTree::Text(content)
                ==> growth::normalizer_fits(tree.at("normalizer"@), content)) by {}
        }
    }
}

}
