//! How much the parts of a tokenizer add to a text, and whether their regular expressions
//! are bounded with what they come across.

use crate::expression;
use crate::expression::{check_expression, plus, times, MOST};
use crate::json::{Json, JsonTree};
use crate::text;
use vstd::prelude::*;
use vstd::string::*;
use vstd::utf8::*;

verus! {

/// Whether the expressions in a description, and in every one within it, are bounded with
/// texts of so many bytes.
pub open spec fn all_bounded(tree: JsonTree, length: u64) -> bool
    decreases tree,
{
    &&& tree.at("Regex"@) matches JsonTree::Text(expression) ==> expression::is_bounded(
        encode_utf8(expression),
        length,
    )
    &&& match tree {
        JsonTree::Array(items) => forall|i: int|
            0 <= i < items.len() ==> all_bounded(#[trigger] items[i], length),
        JsonTree::Object(entries) => forall|i: int|
            0 <= i < entries.len() ==> all_bounded((#[trigger] entries[i]).1, length),
        _ => true,
    }
}

/// How many bytes a text in a description has.
pub open spec fn size(tree: JsonTree) -> u64 {
    match tree {
        JsonTree::Text(text) => expression::capped(encode_utf8(text).len() as int),
        _ => 0,
    }
}

/// How many bytes the texts among the items of a description have.
pub open spec fn size_of_items(items: Seq<JsonTree>) -> u64
    decreases items.len(),
{
    if items.len() == 0 {
        0
    } else {
        expression::capped(size_of_items(items.drop_last()) + size(items.last()))
    }
}

/// How many bytes the texts among the entries of a description have.
pub open spec fn size_of_entries(entries: Seq<(Seq<char>, JsonTree)>) -> u64
    decreases entries.len(),
{
    if entries.len() == 0 {
        0
    } else {
        expression::capped(size_of_entries(entries.drop_last()) + size(entries.last().1))
    }
}

/// Whether a description is of this type.
pub open spec fn is_type(node: JsonTree, name: Seq<char>) -> bool {
    node.at("type"@) == JsonTree::Text(name)
}

/// Whether a description is that of a part that adds nothing to a text, or of what such a
/// part looks for.
pub open spec fn adds_nothing(node: JsonTree) -> bool {
    ||| is_type(node, "Sequence"@) || is_type(node, "Strip"@) || is_type(node, "StripAccents"@)
    ||| is_type(node, "Nmt"@) || is_type(node, "BertPreTokenizer"@) || is_type(node, "Whitespace"@)
    ||| is_type(node, "WhitespaceSplit"@) || is_type(node, "Split"@)
    ||| is_type(node, "Punctuation"@) || is_type(node, "Digits"@) || is_type(
        node,
        "UnicodeScripts"@,
    ) || is_type(node, "CharDelimiterSplit"@) || is_type(node, "FixedLength"@)
    ||| node matches JsonTree::Object(entries) && entries.len() == 1 && (entries[0].0 == "Regex"@
        || entries[0].0 == "String"@)
}

/// How many times as long a part makes a text, those within it aside: what is put in place
/// of a character, or of nothing, is one of the texts of the description, or an expansion
/// that Unicode knows of.
pub open spec fn own_growth(node: JsonTree) -> u64 {
    if adds_nothing(node) {
        1
    } else if is_type(node, "NFC"@) || is_type(node, "NFD"@) || is_type(node, "Lowercase"@) {
        3
    } else if is_type(node, "ByteLevel"@) || is_type(node, "Metaspace"@) {
        8
    } else {
        match node {
            JsonTree::Array(items) => if size_of_items(items) == 0 {
                1
            } else {
                expression::capped(36 * expression::capped(size_of_items(items) + 1))
            },
            JsonTree::Object(entries) => expression::capped(36 * expression::capped(size_of_entries(entries) + 1)),
            _ => 1,
        }
    }
}

/// How many times as long a part, with all parts within it, makes a text.
pub open spec fn growth(tree: JsonTree) -> u64
    decreases tree,
{
    match tree {
        JsonTree::Array(items) => expression::capped(own_growth(tree) * growth_of_items(items)),
        JsonTree::Object(entries) => expression::capped(own_growth(tree) * growth_of_entries(entries)),
        _ => 1,
    }
}

/// How many times as long parts make a text, one after another.
pub open spec fn growth_of_items(items: Seq<JsonTree>) -> u64
    decreases items,
{
    if items.len() == 0 {
        1
    } else {
        expression::capped(growth_of_items(items.drop_last()) * growth(items[items.len() - 1]))
    }
}

/// How many times as long the entries of a part make a text.
pub open spec fn growth_of_entries(entries: Seq<(Seq<char>, JsonTree)>) -> u64
    decreases entries,
{
    if entries.len() == 0 {
        1
    } else {
        expression::capped(growth_of_entries(entries.drop_last()) * growth(entries[entries.len() - 1].1))
    }
}

/// Whether the expressions of a normalizer are bounded with all that they come across in a
/// text.
pub open spec fn normalizer_fits(normalizer: JsonTree, text: Seq<char>) -> bool {
    all_bounded(normalizer, expression::capped(growth(normalizer) * expression::capped(encode_utf8(text).len() + 1int)))
}

/// Whether the expressions of a pre-tokenizer are bounded with all that they come across in
/// a text that a normalizer has changed.
pub open spec fn pre_tokenizer_fits(
    normalizer: JsonTree,
    pre_tokenizer: JsonTree,
    text: Seq<char>,
) -> bool {
    all_bounded(
        pre_tokenizer,
        expression::capped(
            expression::capped(growth(normalizer) * growth(pre_tokenizer)) * expression::capped(
                encode_utf8(text).len() + 1int,
            ),
        ),
    )
}

/// Whether the expressions in a description, and in every one within it, are bounded.
fn check_all(json: &Json, length: u64) -> (fits: bool)
    requires
        length <= MOST,
    ensures
        fits == all_bounded(json@, length),
    decreases json@,
{
    if let Some(expression) = json.text_at("Regex") {
        assert(expression::capped(length as int) == length);
        if !check_expression(expression.as_str(), length) {
            return false;
        }
    }
    let ghost tree = json@;
    match json {
        Json::Array(items) => {
            let mut i: usize = 0;
            while i < items.len()
                invariant
                    i <= items@.len(),
                    length <= MOST,
                    tree == json@,
                    *json == Json::Array(*items),
                    tree->Array_0.len() == items@.len(),
                    forall|j: int| 0 <= j < i ==> all_bounded(#[trigger] tree->Array_0[j], length),
                decreases items@.len() - i,
            {
                assert(tree->Array_0[i as int] == items@[i as int]@);
                assert(decreases_to!(tree => tree->Array_0));
                if !check_all(&items[i], length) {
                    return false;
                }
                i += 1;
            }
            true
        },
        Json::Object(entries) => {
            let mut i: usize = 0;
            while i < entries.len()
                invariant
                    i <= entries@.len(),
                    length <= MOST,
                    tree == json@,
                    *json == Json::Object(*entries),
                    tree->Object_0.len() == entries@.len(),
                    forall|j: int|
                        0 <= j < i ==> all_bounded((#[trigger] tree->Object_0[j]).1, length),
                decreases entries@.len() - i,
            {
                let ghost entry = tree->Object_0[i as int];
                assert(entry == (entries@[i as int].0@, entries@[i as int].1@));
                assert(decreases_to!(tree => tree->Object_0));
                assert(decreases_to!(tree->Object_0 => entry));
                assert(decreases_to!(entry => entry.1));
                if !check_all(&entries[i].1, length) {
                    return false;
                }
                i += 1;
            }
            true
        },
        _ => true,
    }
}

/// How many bytes a text has.
fn bytes_of(text: &str) -> (count: u64)
    ensures
        count == expression::capped(encode_utf8(text@).len() as int),
{
    let count: usize = text.as_bytes().len();
    if count < MOST as usize {
        count as u64
    } else {
        MOST
    }
}

/// How many bytes a text in a description has.
fn measure(json: &Json) -> (size: u64)
    ensures
        size == self::size(json@),
{
    match json {
        Json::Text(text) => bytes_of(text.as_str()),
        _ => 0,
    }
}

/// Whether a description is that of a part that adds nothing to a text, or of what such a
/// part looks for.
fn check_adds_nothing(node: &Json) -> (fits: bool)
    ensures
        fits == adds_nothing(node@),
{
    if let Json::Object(entries) = node {
        if entries.len() == 1 {
            assert(node@->Object_0[0].0 == entries@[0].0@);
            let key = entries[0].0.as_str();
            if text::same_text(key, "Regex") || text::same_text(key, "String") {
                return true;
            }
        }
    }
    match node.text_at("type") {
        Some(name) => {
            let name = name.as_str();
            text::same_text(name, "Sequence") || text::same_text(name, "Strip") || text::same_text(
                name,
                "StripAccents",
            ) || text::same_text(name, "Nmt") || text::same_text(name, "BertPreTokenizer")
                || text::same_text(name, "Whitespace") || text::same_text(name, "WhitespaceSplit")
                || text::same_text(name, "Split") || text::same_text(name, "Punctuation")
                || text::same_text(name, "Digits") || text::same_text(name, "UnicodeScripts")
                || text::same_text(name, "CharDelimiterSplit") || text::same_text(
                name,
                "FixedLength",
            )
        },
        None => false,
    }
}

/// How many times as long a part makes a text, those within it aside.
fn measure_own_growth(node: &Json) -> (growth: u64)
    ensures
        growth == own_growth(node@),
{
    if check_adds_nothing(node) {
        return 1;
    }
    if node.is_text_at("type", "NFC") || node.is_text_at("type", "NFD") || node.is_text_at(
        "type",
        "Lowercase",
    ) {
        return 3;
    }
    if node.is_text_at("type", "ByteLevel") || node.is_text_at("type", "Metaspace") {
        return 8;
    }
    let ghost tree = node@;
    let mut size: u64 = 0;
    let mut i: usize = 0;
    match node {
        Json::Array(items) => {
            assert(tree->Array_0.take(0) =~= seq![]);
            while i < items.len()
                invariant
                    i <= items@.len(),
                    tree == node@,
                    *node == Json::Array(*items),
                    tree->Array_0.len() == items@.len(),
                    size == size_of_items(tree->Array_0.take(i as int)),
                decreases items@.len() - i,
            {
                let ghost all = tree->Array_0;
                assert(all.take(i + 1).drop_last() =~= all.take(i as int));
                assert(all.take(i + 1).last() == items@[i as int]@);
                size = plus(size, measure(&items[i]));
                i += 1;
            }
            assert(tree->Array_0.take(i as int) =~= tree->Array_0);
            if size == 0 {
                1
            } else {
                times(36, plus(size, 1))
            }
        },
        Json::Object(entries) => {
            assert(tree->Object_0.take(0) =~= seq![]);
            while i < entries.len()
                invariant
                    i <= entries@.len(),
                    tree == node@,
                    *node == Json::Object(*entries),
                    tree->Object_0.len() == entries@.len(),
                    size == size_of_entries(tree->Object_0.take(i as int)),
                decreases entries@.len() - i,
            {
                let ghost all = tree->Object_0;
                assert(all.take(i + 1).drop_last() =~= all.take(i as int));
                assert(all.take(i + 1).last() == (entries@[i as int].0@, entries@[i as int].1@));
                size = plus(size, measure(&entries[i].1));
                i += 1;
            }
            assert(tree->Object_0.take(i as int) =~= tree->Object_0);
            times(36, plus(size, 1))
        },
        _ => 1,
    }
}

/// How many times as long a part, with all parts within it, makes a text.
fn measure_growth(json: &Json) -> (growth: u64)
    ensures
        growth == self::growth(json@),
    decreases json@,
{
    let ghost tree = json@;
    let mut growth: u64 = 1;
    let mut i: usize = 0;
    match json {
        Json::Array(items) => {
            assert(tree->Array_0.take(0) =~= seq![]);
            while i < items.len()
                invariant
                    i <= items@.len(),
                    tree == json@,
                    *json == Json::Array(*items),
                    tree->Array_0.len() == items@.len(),
                    growth == growth_of_items(tree->Array_0.take(i as int)),
                decreases items@.len() - i,
            {
                let ghost all = tree->Array_0;
                assert(all[i as int] == items@[i as int]@);
                assert(decreases_to!(tree => tree->Array_0));
                let inner: u64 = measure_growth(&items[i]);
                assert(all.take(i + 1).drop_last() =~= all.take(i as int));
                assert(all.take(i + 1)[i as int] == all[i as int]);
                growth = times(growth, inner);
                i += 1;
            }
            assert(tree->Array_0.take(i as int) =~= tree->Array_0);
            times(measure_own_growth(json), growth)
        },
        Json::Object(entries) => {
            assert(tree->Object_0.take(0) =~= seq![]);
            while i < entries.len()
                invariant
                    i <= entries@.len(),
                    tree == json@,
                    *json == Json::Object(*entries),
                    tree->Object_0.len() == entries@.len(),
                    growth == growth_of_entries(tree->Object_0.take(i as int)),
                decreases entries@.len() - i,
            {
                let ghost all = tree->Object_0;
                let ghost entry = all[i as int];
                assert(entry == (entries@[i as int].0@, entries@[i as int].1@));
                assert(decreases_to!(tree => tree->Object_0));
                assert(decreases_to!(tree->Object_0 => entry));
                assert(decreases_to!(entry => entry.1));
                let inner: u64 = measure_growth(&entries[i].1);
                assert(all.take(i + 1).drop_last() =~= all.take(i as int));
                assert(all.take(i + 1)[i as int] == entry);
                growth = times(growth, inner);
                i += 1;
            }
            assert(tree->Object_0.take(i as int) =~= tree->Object_0);
            times(measure_own_growth(json), growth)
        },
        _ => 1,
    }
}

/// How many bytes a text has, and one more.
fn room_of(text: &str) -> (count: u64)
    ensures
        count == expression::capped(encode_utf8(text@).len() + 1int),
{
    plus(bytes_of(text), 1)
}

/// Whether the expressions of a normalizer are bounded with all that they come across in a
/// text.
pub fn check_normalizer(normalizer: &Json, text: &str) -> (fits: bool)
    ensures
        fits == normalizer_fits(normalizer@, text@),
{
    check_all(normalizer, times(measure_growth(normalizer), room_of(text)))
}

/// Whether the expressions of a pre-tokenizer are bounded with all that they come across in
/// a text that a normalizer has changed.
pub fn check_pre_tokenizer(normalizer: &Json, pre_tokenizer: &Json, text: &str) -> (fits: bool)
    ensures
        fits == pre_tokenizer_fits(normalizer@, pre_tokenizer@, text@),
{
    let growth: u64 = times(measure_growth(normalizer), measure_growth(pre_tokenizer));
    check_all(pre_tokenizer, times(growth, room_of(text)))
}

/// Whether a description, or one within it, has a regular expression.
pub open spec fn has_expression(tree: JsonTree) -> bool
    decreases tree,
{
    ||| tree.at("Regex"@) is Text
    ||| match tree {
        JsonTree::Array(items) => exists|i: int|
            0 <= i < items.len() && has_expression(#[trigger] items[i]),
        JsonTree::Object(entries) => exists|i: int|
            0 <= i < entries.len() && has_expression((#[trigger] entries[i]).1),
        _ => false,
    }
}

/// Parts without regular expressions can be put to every text.
pub proof fn parts_without_expressions_fit(
    normalizer: JsonTree,
    pre_tokenizer: JsonTree,
    text: Seq<char>,
)
    ensures
        !has_expression(normalizer) ==> normalizer_fits(normalizer, text),
        !has_expression(pre_tokenizer) ==> pre_tokenizer_fits(normalizer, pre_tokenizer, text),
{
    let length = encode_utf8(text).len() + 1int;
    if !has_expression(normalizer) {
        lemma_no_expression(
            normalizer,
            expression::capped(growth(normalizer) * expression::capped(length)),
        );
    }
    if !has_expression(pre_tokenizer) {
        lemma_no_expression(
            pre_tokenizer,
            expression::capped(
                expression::capped(growth(normalizer) * growth(pre_tokenizer)) * expression::capped(
                    length,
                ),
            ),
        );
    }
}

proof fn lemma_no_expression(tree: JsonTree, length: u64)
    requires
        !has_expression(tree),
    ensures
        all_bounded(tree, length),
    decreases tree,
{
    match tree {
        JsonTree::Array(items) => {
            assert forall|i: int| 0 <= i < items.len() implies all_bounded(
                #[trigger] items[i],
                length,
            ) by {
                assert(decreases_to!(tree => items));
                assert(!has_expression(items[i]));
                lemma_no_expression(items[i], length);
            }
        },
        JsonTree::Object(entries) => {
            assert forall|i: int| 0 <= i < entries.len() implies all_bounded(
                (#[trigger] entries[i]).1,
                length,
            ) by {
                assert(decreases_to!(tree => entries));
                assert(decreases_to!(entries => entries[i]));
                assert(decreases_to!(entries[i] => entries[i].1));
                assert(!has_expression(entries[i].1));
                lemma_no_expression(entries[i].1, length);
            }
        },
        _ => {},
    }
}

/// No part makes a text shorter than it counts as, and the regular expressions of a part that
/// can be put to a text are bounded with all of the text at least.
pub proof fn expressions_are_bounded_with_the_text(
    normalizer: JsonTree,
    pre_tokenizer: JsonTree,
    text: Seq<char>,
) -> (lengths: (u64, u64))
    ensures
        growth(normalizer) >= 1,
        lengths.0 >= MOST || lengths.0 >= encode_utf8(text).len() + 1,
        lengths.1 >= MOST || lengths.1 >= encode_utf8(text).len() + 1,
        lengths.1 >= lengths.0,
        (normalizer_fits(normalizer, text) && normalizer.at("Regex"@) is Text)
            ==> expression::is_bounded(encode_utf8(normalizer.at("Regex"@)->Text_0), lengths.0),
        (pre_tokenizer_fits(normalizer, pre_tokenizer, text) && pre_tokenizer.at("Regex"@) is Text)
            ==> expression::is_bounded(encode_utf8(pre_tokenizer.at("Regex"@)->Text_0), lengths.1),
{
    lemma_growth(normalizer);
    lemma_growth(pre_tokenizer);
    let (a, b) = (growth(normalizer) as int, growth(pre_tokenizer) as int);
    let both = expression::capped(a * b);
    let room = expression::capped(encode_utf8(text).len() + 1int);
    assert(a * room >= room) by (nonlinear_arith)
        requires
            a >= 1,
            room >= 0,
    ;
    assert(a * b >= a) by (nonlinear_arith)
        requires
            a >= 1,
            b >= 1,
    ;
    assert(both >= a || both >= MOST);
    assert(both * room >= a * room || both * room >= MOST) by (nonlinear_arith)
        requires
            both >= a || both >= MOST,
            room >= 1,
            MOST >= 1,
    ;
    (expression::capped(a * room), expression::capped(both * room))
}

/// A part makes a text no shorter, and what it counts as is capped.
proof fn lemma_growth(tree: JsonTree)
    ensures
        1 <= growth(tree) <= MOST,
    decreases tree,
{
    match tree {
        JsonTree::Array(items) => {
            assert(decreases_to!(tree => items));
            lemma_growth_of_items(items);
            let (own, inner) = (own_growth(tree) as int, growth_of_items(items) as int);
            assert(own * inner >= 1) by (nonlinear_arith)
                requires
                    own >= 1,
                    inner >= 1,
            ;
        },
        JsonTree::Object(entries) => {
            assert(decreases_to!(tree => entries));
            lemma_growth_of_entries(entries);
            let (own, inner) = (own_growth(tree) as int, growth_of_entries(entries) as int);
            assert(own * inner >= 1) by (nonlinear_arith)
                requires
                    own >= 1,
                    inner >= 1,
            ;
        },
        _ => {},
    }
}

proof fn lemma_growth_of_items(items: Seq<JsonTree>)
    ensures
        1 <= growth_of_items(items) <= MOST,
    decreases items,
{
    if items.len() > 0 {
        lemma_growth_of_items(items.drop_last());
        lemma_growth(items[items.len() - 1]);
        let (a, b) = (
            growth_of_items(items.drop_last()) as int,
            growth(items[items.len() - 1]) as int,
        );
        assert(a * b >= 1) by (nonlinear_arith)
            requires
                a >= 1,
                b >= 1,
        ;
    }
}

proof fn lemma_growth_of_entries(entries: Seq<(Seq<char>, JsonTree)>)
    ensures
        1 <= growth_of_entries(entries) <= MOST,
    decreases entries,
{
    if entries.len() > 0 {
        lemma_growth_of_entries(entries.drop_last());
        let last = entries[entries.len() - 1];
        assert(decreases_to!(entries => last));
        assert(decreases_to!(last => last.1));
        lemma_growth(last.1);
        let (a, b) = (growth_of_entries(entries.drop_last()) as int, growth(last.1) as int);
        assert(a * b >= 1) by (nonlinear_arith)
            requires
                a >= 1,
                b >= 1,
        ;
    }
}

/// The texts of a description have as many bytes as they have together, up to [`MOST`].
pub proof fn sizes_add_up(
    items: Seq<JsonTree>,
    entries: Seq<(Seq<char>, JsonTree)>,
    key: Seq<char>,
    tree: JsonTree,
)
    ensures
        ({
            let own: int = match tree {
                JsonTree::Text(text) => encode_utf8(text).len() as int,
                _ => 0,
            };
            let limit = |number: int|
                if number < 10_000_000 {
                    number
                } else {
                    10_000_000
                };
            &&& size_of_items(seq![]) == 0
            &&& size_of_entries(seq![]) == 0
            &&& size_of_items(items.push(tree)) == limit(size_of_items(items) + limit(own))
            &&& size_of_entries(entries.push((key, tree))) == limit(
                size_of_entries(entries) + limit(own),
            )
        }),
{
    assert(items.push(tree).drop_last() =~= items);
    assert(entries.push((key, tree)).drop_last() =~= entries);
}

/// How many times as long a part makes a text by itself. Parts that only cut, remove or look
/// add nothing; composing, decomposing and changing to small letters make up to three times
/// as much of it, and those that write bytes or mark spaces up to eight times. For all others
/// it is taken that each character becomes one of the texts of the description, or the
/// longest of what Unicode knows, at its longest.
pub proof fn parts_add_what_they_may(node: JsonTree)
    ensures
        ({
            let kind = node.at("type"@);
            let none = kind == JsonTree::Text("Sequence"@) || kind == JsonTree::Text("Strip"@)
                || kind == JsonTree::Text("StripAccents"@) || kind == JsonTree::Text("Nmt"@) || kind
                == JsonTree::Text("BertPreTokenizer"@) || kind == JsonTree::Text("Whitespace"@)
                || kind == JsonTree::Text("WhitespaceSplit"@) || kind == JsonTree::Text("Split"@)
                || kind == JsonTree::Text("Punctuation"@) || kind == JsonTree::Text("Digits"@)
                || kind == JsonTree::Text("UnicodeScripts"@) || kind == JsonTree::Text(
                "CharDelimiterSplit"@,
            ) || kind == JsonTree::Text("FixedLength"@) || (
            node matches JsonTree::Object(entries) && entries.len() == 1 && (entries[0].0
                == "Regex"@ || entries[0].0 == "String"@));
            let three = kind == JsonTree::Text("NFC"@) || kind == JsonTree::Text("NFD"@) || kind
                == JsonTree::Text("Lowercase"@);
            let eight = kind == JsonTree::Text("ByteLevel"@) || kind == JsonTree::Text(
                "Metaspace"@,
            );
            let most = |size: u64|
                if 36 * (size + 1) < 10_000_000 {
                    36 * (size + 1)
                } else {
                    10_000_000
                };
            &&& none ==> own_growth(node) == 1
            &&& !none && three ==> own_growth(node) == 3
            &&& !none && !three && eight ==> own_growth(node) == 8
            &&& !none && !three && !eight ==> match node {
                JsonTree::Array(items) => own_growth(node) == (if size_of_items(items) == 0 {
                    1
                } else {
                    most(size_of_items(items))
                }),
                JsonTree::Object(entries) => own_growth(node) == most(size_of_entries(entries)),
                _ => own_growth(node) == 1,
            }
        }),
{
}

/// Parts one after another make a text as many times longer as all of them together, and a
/// part that holds others as many times as it does by itself and they do, up to [`MOST`].
pub proof fn growth_multiplies(
    items: Seq<JsonTree>,
    entries: Seq<(Seq<char>, JsonTree)>,
    key: Seq<char>,
    tree: JsonTree,
)
    ensures
        ({
            let limit = |number: int|
                if number < 10_000_000 {
                    number
                } else {
                    10_000_000
                };
            &&& growth_of_items(seq![]) == 1
            &&& growth_of_entries(seq![]) == 1
            &&& growth_of_items(items.push(tree)) == limit(growth_of_items(items) * growth(tree))
            &&& growth_of_entries(entries.push((key, tree))) == limit(
                growth_of_entries(entries) * growth(tree),
            )
            &&& growth(JsonTree::Array(items)) == limit(
                own_growth(JsonTree::Array(items)) * growth_of_items(items),
            )
            &&& growth(JsonTree::Object(entries)) == limit(
                own_growth(JsonTree::Object(entries)) * growth_of_entries(entries),
            )
            &&& !(tree is Array) && !(tree is Object) ==> growth(tree) == 1
        }),
{
    assert(items.push(tree).drop_last() =~= items);
    assert(entries.push((key, tree)).drop_last() =~= entries);
    assert(items.push(tree)[items.len() as int] == tree);
    assert(entries.push((key, tree))[entries.len() as int] == (key, tree));
}

/// The regular expressions of a normalizer are bounded with a text that is as many times
/// longer than the text, and one byte, as the normalizer makes it; those of a pre-tokenizer
/// with one that is as many times longer as both make it. All of them count, at whatever
/// depth.
pub proof fn expressions_come_across_grown_texts(
    normalizer: JsonTree,
    pre_tokenizer: JsonTree,
    text: Seq<char>,
    tree: JsonTree,
    length: u64,
)
    ensures
        ({
            let limit = |number: int|
                if number < 10_000_000 {
                    number
                } else {
                    10_000_000
                };
            let room = limit(encode_utf8(text).len() + 1int);
            &&& normalizer_fits(normalizer, text) <==> all_bounded(
                normalizer,
                limit(growth(normalizer) * room) as u64,
            )
            &&& pre_tokenizer_fits(normalizer, pre_tokenizer, text) <==> all_bounded(
                pre_tokenizer,
                limit(limit(growth(normalizer) * growth(pre_tokenizer)) * room) as u64,
            )
        }),
        all_bounded(tree, length) <==> {
            &&& !(tree.at("Regex"@) is Text) || expression::is_bounded(
                encode_utf8(tree.at("Regex"@)->Text_0),
                length,
            )
            &&& match tree {
                JsonTree::Array(items) => forall|i: int|
                    0 <= i < items.len() ==> all_bounded(#[trigger] items[i], length),
                JsonTree::Object(entries) => forall|i: int|
                    0 <= i < entries.len() ==> all_bounded((#[trigger] entries[i]).1, length),
                _ => true,
            }
        },
{
}

}
