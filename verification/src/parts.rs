//! The parts of a tokenizer that the `tokenizers` crate takes for granted.
//!
//! Where the model, the normalizer, the pre-tokenizer or the post-processor of a
//! tokenizer is not in order, reading the tokenizer or encoding with it panics.

use crate::charsmap;
use crate::expression;
use crate::json::{Json, JsonTree};
use crate::text;
use vstd::prelude::*;
use vstd::utf8::*;

verus! {

/// The parts that work on a text one after another.
#[derive(Debug, Clone, Copy, PartialEq, Eq, Structural)]
pub enum Part {
    Normalizer,
    PreTokenizer,
    PostProcessor,
}

/// Whether a piece of a template is in order: a template for a single text uses that
/// text alone, and each special token is one of the template's own.
pub open spec fn piece_in_order(piece: JsonTree, tokens: JsonTree, single: bool) -> bool {
    &&& single && !(piece.at("Sequence"@) is Null) ==> piece.at("Sequence"@).at("id"@)
        == JsonTree::Text("A"@)
    &&& !(piece.at("SpecialToken"@) is Null) ==> (piece.at("SpecialToken"@).at(
        "id"@,
    ) matches JsonTree::Text(id) && !(tokens.at(id) is Null))
}

/// Whether a description is that of a template.
pub open spec fn is_template(node: JsonTree) -> bool {
    node.at("single"@) is Array && node.at("pair"@) is Array && node.at("special_tokens"@) is Object
}

/// Whether the pieces of a template are in order.
pub open spec fn template_in_order(node: JsonTree) -> bool {
    let tokens = node.at("special_tokens"@);
    &&& forall|i: int|
        0 <= i < node.at("single"@)->Array_0.len() ==> piece_in_order(
            #[trigger] node.at("single"@)->Array_0[i],
            tokens,
            true,
        )
    &&& forall|i: int|
        0 <= i < node.at("pair"@)->Array_0.len() ==> piece_in_order(
            #[trigger] node.at("pair"@)->Array_0[i],
            tokens,
            false,
        )
}

/// Whether a description is of a type that normalizers have, where it is of a type.
pub open spec fn normalizer_type(node: JsonTree) -> bool {
    node.at("type"@) matches JsonTree::Text(name) ==> {
        ||| name == "Bert"@ || name == "BertNormalizer"@ || name == "Strip"@ || name
            == "StripAccents"@ || name == "NFC"@ || name == "NFD"@ || name == "NFKC"@
        ||| name == "NFKD"@ || name == "Sequence"@ || name == "Lowercase"@ || name == "Nmt"@
        ||| name == "Precompiled"@ || name == "Replace"@ || name == "Prepend"@ || name
            == "ByteLevel"@
    }
}

/// Whether all that a description has is named: a list holds no texts.
pub open spec fn is_named(node: JsonTree) -> bool {
    node matches JsonTree::Array(items) ==> forall|i: int|
        0 <= i < items.len() ==> !(#[trigger] items[i] is Text)
}

/// Whether a normalizer puts nothing before a text that does not come from the text: it
/// puts no empty text there, and in place of nothing it puts nothing. A text that starts
/// with what does not come from it cannot be changed as a whole.
pub open spec fn keeps_start(node: JsonTree) -> bool {
    let pattern = node.at("pattern"@);
    &&& node.at("prepend"@) != JsonTree::Text(""@)
    &&& !(pattern is Null) && node.at("content"@) != JsonTree::Text(""@) ==> {
        ||| pattern.at("String"@) matches JsonTree::Text(text) && text != ""@
        ||| pattern.at("Regex"@) matches JsonTree::Text(text) && expression::is_solid(
            encode_utf8(text),
        )
    }
}

/// Whether a description within that of a part is in order, those within it aside. A
/// normalizer that is precompiled has a map that is complete, and no normalizer puts
/// before a text what does not come from it, a pre-tokenizer makes no pieces of length 0,
/// and the pieces of a template are in order.
pub open spec fn node_in_order(part: Part, node: JsonTree) -> bool {
    match part {
        Part::Normalizer => {
            let map = node.at("precompiled_charsmap"@);
            &&& normalizer_type(node)
            &&& is_named(node)
            &&& keeps_start(node)
            &&& node.at("type"@) == JsonTree::Text("Precompiled"@) || map is Text ==> (
            map matches JsonTree::Text(text) && charsmap::holds_map(text))
        },
        Part::PreTokenizer => node.at("length"@).as_unsigned() != Some(0u64),
        Part::PostProcessor => is_template(node) ==> template_in_order(node),
    }
}

/// Whether a description of a part, and every one within it, is in order.
pub open spec fn in_order(part: Part, tree: JsonTree) -> bool
    decreases tree,
{
    &&& node_in_order(part, tree)
    &&& match tree {
        JsonTree::Array(items) => forall|i: int|
            0 <= i < items.len() ==> in_order(part, #[trigger] items[i]),
        JsonTree::Object(entries) => forall|i: int|
            0 <= i < entries.len() ==> in_order(part, (#[trigger] entries[i]).1),
        _ => true,
    }
}

/// How many templates there are in a description.
pub open spec fn templates(tree: JsonTree) -> nat
    decreases tree,
{
    let own: nat = if is_template(tree) {
        1
    } else {
        0
    };
    match tree {
        JsonTree::Array(items) => own + templates_in_items(items),
        JsonTree::Object(entries) => own + templates_in_entries(entries),
        _ => own,
    }
}

/// How many templates there are in descriptions.
pub open spec fn templates_in_items(items: Seq<JsonTree>) -> nat
    decreases items,
{
    if items.len() == 0 {
        0
    } else {
        templates_in_items(items.drop_last()) + templates(items[items.len() - 1])
    }
}

/// How many templates there are in the entries of a description.
pub open spec fn templates_in_entries(entries: Seq<(Seq<char>, JsonTree)>) -> nat
    decreases entries,
{
    if entries.len() == 0 {
        0
    } else {
        templates_in_entries(entries.drop_last()) + templates(entries[entries.len() - 1].1)
    }
}

/// Whether the pieces of a template use no text more than once.
pub open spec fn use_once(pieces: Seq<JsonTree>) -> bool {
    forall|i: int, j: int|
        0 <= i < j < pieces.len() && !((#[trigger] pieces[i]).at("Sequence"@) is Null) && !((
        #[trigger] pieces[j]).at("Sequence"@) is Null) ==> pieces[i].at("Sequence"@).at("id"@)
            != pieces[j].at("Sequence"@).at("id"@)
}

/// Whether a post-processor uses no text more than once: it has no template, or is one
/// that does not.
pub open spec fn uses_texts_once(post_processor: JsonTree) -> bool {
    ||| templates(post_processor) == 0
    ||| is_template(post_processor) && use_once(post_processor.at("single"@)->Array_0) && use_once(
        post_processor.at("pair"@)->Array_0,
    )
}

/// Whether an entry is missing or null.
fn is_absent(entry: Option<&Json>) -> (absent: bool)
    ensures
        absent == (match entry {
            Some(json) => json@ is Null,
            None => true,
        }),
{
    match entry {
        Some(Json::Null) => true,
        Some(_) => false,
        None => true,
    }
}

/// Whether a piece of a template is in order.
fn check_piece(piece: &Json, tokens: &Json, single: bool) -> (fits: bool)
    ensures
        fits == piece_in_order(piece@, tokens@, single),
{
    if single {
        if let Some(sequence) = piece.at("Sequence") {
            if !is_absent(Some(sequence)) && !sequence.is_text_at("id", "A") {
                return false;
            }
        }
    }
    if let Some(token) = piece.at("SpecialToken") {
        if !is_absent(Some(token)) {
            return match token.text_at("id") {
                Some(id) => !is_absent(tokens.at(id.as_str())),
                None => false,
            };
        }
    }
    true
}

/// Whether the pieces of a list are in order.
fn check_pieces(pieces: &Vec<Json>, tokens: &Json, single: bool) -> (fits: bool)
    ensures
        fits == (forall|i: int|
            0 <= i < pieces@.len() ==> piece_in_order((#[trigger] pieces@[i])@, tokens@, single)),
{
    let mut i: usize = 0;
    while i < pieces.len()
        invariant
            i <= pieces@.len(),
            forall|j: int|
                0 <= j < i ==> piece_in_order((#[trigger] pieces@[j])@, tokens@, single),
        decreases pieces@.len() - i,
    {
        if !check_piece(&pieces[i], tokens, single) {
            return false;
        }
        i += 1;
    }
    true
}

/// The lists and the special tokens of a template, where a description is that of one.
fn read_template(node: &Json) -> (template: Option<(&Vec<Json>, &Vec<Json>, &Json)>)
    ensures
        match template {
            Some((single, pair, tokens)) => {
                &&& is_template(node@)
                &&& node@.at("single"@) == Json::Array(*single)@
                &&& node@.at("pair"@) == Json::Array(*pair)@
                &&& node@.at("special_tokens"@) == tokens@
            },
            None => !is_template(node@),
        },
{
    match (node.at("single"), node.at("pair"), node.at("special_tokens")) {
        (Some(Json::Array(single)), Some(Json::Array(pair)), Some(tokens)) => match tokens {
            Json::Object(_) => Some((single, pair, tokens)),
            _ => None,
        },
        _ => None,
    }
}

/// Whether a description is of a type that normalizers have, where it is of a type.
fn check_normalizer_type(node: &Json) -> (fits: bool)
    ensures
        fits == normalizer_type(node@),
{
    match node.text_at("type") {
        Some(name) => {
            let name = name.as_str();
            text::same_text(name, "Bert") || text::same_text(name, "BertNormalizer")
                || text::same_text(name, "Strip") || text::same_text(name, "StripAccents")
                || text::same_text(name, "NFC") || text::same_text(name, "NFD") || text::same_text(
                name,
                "NFKC",
            ) || text::same_text(name, "NFKD") || text::same_text(name, "Sequence")
                || text::same_text(name, "Lowercase") || text::same_text(name, "Nmt")
                || text::same_text(name, "Precompiled") || text::same_text(name, "Replace")
                || text::same_text(name, "Prepend") || text::same_text(name, "ByteLevel")
        },
        None => true,
    }
}

/// Whether all that a description has is named.
fn check_named(node: &Json) -> (fits: bool)
    ensures
        fits == is_named(node@),
{
    if let Json::Array(items) = node {
        let ghost tree = node@;
        let mut i: usize = 0;
        while i < items.len()
            invariant
                i <= items@.len(),
                tree == node@,
                *node == Json::Array(*items),
                forall|j: int| 0 <= j < i ==> !(#[trigger] tree->Array_0[j] is Text),
            decreases items@.len() - i,
        {
            assert(tree->Array_0[i as int] == items@[i as int]@);
            if let Json::Text(_) = &items[i] {
                return false;
            }
            i += 1;
        }
    }
    true
}

/// Whether a normalizer puts nothing before a text that does not come from the text.
fn check_start(node: &Json) -> (fits: bool)
    ensures
        fits == keeps_start(node@),
{
    if node.is_text_at("prepend", "") {
        return false;
    }
    let pattern = match node.at("pattern") {
        Some(pattern) => pattern,
        None => return true,
    };
    if is_absent(Some(pattern)) || node.is_text_at("content", "") {
        return true;
    }
    let plain: bool = match pattern.text_at("String") {
        Some(text) => !text::same_text(text.as_str(), ""),
        None => false,
    };
    plain || match pattern.text_at("Regex") {
        Some(text) => expression::check_solid(text.as_str()),
        None => false,
    }
}

/// Whether a description within that of a part is in order, those within it aside.
fn check_node(part: Part, node: &Json) -> (fits: bool)
    ensures
        fits == node_in_order(part, node@),
{
    match part {
        Part::Normalizer => {
            let map_fits: bool = match node.text_at("precompiled_charsmap") {
                Some(text) => charsmap::is_map(text.as_str()),
                None => !node.is_text_at("type", "Precompiled"),
            };
            map_fits && check_normalizer_type(node) && check_named(node) && check_start(node)
        },
        Part::PreTokenizer => match node.unsigned_at("length") {
            Some(length) => length != 0,
            None => true,
        },
        Part::PostProcessor => match read_template(node) {
            Some((single, pair, tokens)) => {
                let ghost tree = node@;
                assert forall|i: int| 0 <= i < single@.len() implies tree.at("single"@)->Array_0[i]
                    == (#[trigger] single@[i])@ by {}
                assert forall|i: int| 0 <= i < pair@.len() implies tree.at("pair"@)->Array_0[i]
                    == (#[trigger] pair@[i])@ by {}
                check_pieces(single, tokens, true) && check_pieces(pair, tokens, false)
            },
            None => true,
        },
    }
}

/// Whether a description of a part, and every one within it, is in order.
pub fn check_part(part: Part, json: &Json) -> (fits: bool)
    ensures
        fits == in_order(part, json@),
    decreases json@,
{
    if !check_node(part, json) {
        return false;
    }
    let ghost tree = json@;
    match json {
        Json::Array(items) => {
            let mut i: usize = 0;
            while i < items.len()
                invariant
                    i <= items@.len(),
                    tree == json@,
                    *json == Json::Array(*items),
                    tree->Array_0.len() == items@.len(),
                    forall|j: int| 0 <= j < i ==> in_order(part, #[trigger] tree->Array_0[j]),
                decreases items@.len() - i,
            {
                assert(tree->Array_0[i as int] == items@[i as int]@);
                assert(decreases_to!(tree => tree->Array_0));
                if !check_part(part, &items[i]) {
                    return false;
                }
                i += 1;
            }
            true
        },
        Json::Object(entries) => {
            let mut i: usize = 0;
            while i < entries.len()
                invariant
                    i <= entries@.len(),
                    tree == json@,
                    *json == Json::Object(*entries),
                    tree->Object_0.len() == entries@.len(),
                    forall|j: int| 0 <= j < i ==> in_order(part, (#[trigger] tree->Object_0[j]).1),
                decreases entries@.len() - i,
            {
                let ghost entry = tree->Object_0[i as int];
                assert(entry == (entries@[i as int].0@, entries@[i as int].1@));
                assert(decreases_to!(tree => tree->Object_0));
                assert(decreases_to!(tree->Object_0 => entry));
                assert(decreases_to!(entry => entry.1));
                if !check_part(part, &entries[i].1) {
                    return false;
                }
                i += 1;
            }
            true
        },
        _ => true,
    }
}

/// A count that goes no further than 2.
pub open spec fn none_one_many(count: nat) -> nat {
    if count < 2 {
        count
    } else {
        2
    }
}

/// Counts the templates in a description, up to 2.
pub fn count_templates(json: &Json) -> (count: u8)
    ensures
        count == none_one_many(templates(json@)),
    decreases json@,
{
    let ghost tree = json@;
    let mut count: u8 = if read_template(json).is_some() {
        1
    } else {
        0
    };
    let ghost own: nat = count as nat;
    match json {
        Json::Array(items) => {
            let mut i: usize = 0;
            assert(tree->Array_0.take(0) =~= seq![]);
            while i < items.len()
                invariant
                    i <= items@.len(),
                    tree == json@,
                    *json == Json::Array(*items),
                    tree->Array_0.len() == items@.len(),
                    count == none_one_many(
                        own + templates_in_items(tree->Array_0.take(i as int)),
                    ),
                decreases items@.len() - i,
            {
                let ghost all = tree->Array_0;
                assert(all[i as int] == items@[i as int]@);
                assert(decreases_to!(tree => tree->Array_0));
                let inner: u8 = count_templates(&items[i]);
                assert(all.take(i + 1).drop_last() =~= all.take(i as int));
                assert(all.take(i + 1)[i as int] == all[i as int]);
                count = if count + inner >= 2 {
                    2
                } else {
                    count + inner
                };
                i += 1;
            }
            assert(tree->Array_0.take(i as int) =~= tree->Array_0);
        },
        Json::Object(entries) => {
            let mut i: usize = 0;
            assert(tree->Object_0.take(0) =~= seq![]);
            while i < entries.len()
                invariant
                    i <= entries@.len(),
                    tree == json@,
                    *json == Json::Object(*entries),
                    tree->Object_0.len() == entries@.len(),
                    count == none_one_many(
                        own + templates_in_entries(tree->Object_0.take(i as int)),
                    ),
                decreases entries@.len() - i,
            {
                let ghost all = tree->Object_0;
                let ghost entry = all[i as int];
                assert(entry == (entries@[i as int].0@, entries@[i as int].1@));
                assert(decreases_to!(tree => tree->Object_0));
                assert(decreases_to!(tree->Object_0 => entry));
                assert(decreases_to!(entry => entry.1));
                let inner: u8 = count_templates(&entries[i].1);
                assert(all.take(i + 1).drop_last() =~= all.take(i as int));
                assert(all.take(i + 1)[i as int] == entry);
                count = if count + inner >= 2 {
                    2
                } else {
                    count + inner
                };
                i += 1;
            }
            assert(tree->Object_0.take(i as int) =~= tree->Object_0);
        },
        _ => {},
    }
    count
}

/// A description is in order if it is by itself, and all that it holds are.
pub proof fn all_within_a_part_counts(part: Part, tree: JsonTree)
    ensures
        match tree {
            JsonTree::Array(items) => in_order(part, tree) <==> node_in_order(part, tree) && forall|
                i: int,
            |
                0 <= i < items.len() ==> in_order(part, #[trigger] items[i]),
            JsonTree::Object(entries) => in_order(part, tree) <==> node_in_order(part, tree)
                && forall|i: int|
                0 <= i < entries.len() ==> in_order(part, (#[trigger] entries[i]).1),
            _ => in_order(part, tree) <==> node_in_order(part, tree),
        },
{
}

/// A pre-tokenizer makes no pieces of length 0.
pub proof fn pre_tokenizers_make_no_empty_pieces(tree: JsonTree)
    ensures
        node_in_order(Part::PreTokenizer, tree) <==> !(
        tree.at("length"@) matches JsonTree::Number(length) && length.unsigned == Some(0u64)),
{
}

/// A normalizer is one of those that there are, where it says which one, and says by name
/// what it has. It puts no empty text before another, and where it puts a text in place of
/// another, that is not empty. A precompiled one has a map that is complete.
pub proof fn normalizers_are_those_that_there_are(tree: JsonTree)
    ensures
        node_in_order(Part::Normalizer, tree) <==> {
            let kind = tree.at("type"@);
            let pattern = tree.at("pattern"@);
            let map = tree.at("precompiled_charsmap"@);
            &&& kind is Text ==> kind == JsonTree::Text("Bert"@) || kind == JsonTree::Text(
                "BertNormalizer"@,
            ) || kind == JsonTree::Text("Strip"@) || kind == JsonTree::Text("StripAccents"@)
                || kind == JsonTree::Text("NFC"@) || kind == JsonTree::Text("NFD"@) || kind
                == JsonTree::Text("NFKC"@) || kind == JsonTree::Text("NFKD"@) || kind
                == JsonTree::Text("Sequence"@) || kind == JsonTree::Text("Lowercase"@) || kind
                == JsonTree::Text("Nmt"@) || kind == JsonTree::Text("Precompiled"@) || kind
                == JsonTree::Text("Replace"@) || kind == JsonTree::Text("Prepend"@) || kind
                == JsonTree::Text("ByteLevel"@)
            &&& !(tree matches JsonTree::Array(items) && exists|i: int|
                0 <= i < items.len() && #[trigger] items[i] is Text)
            &&& tree.at("prepend"@) != JsonTree::Text(""@)
            &&& pattern is Null || tree.at("content"@) == JsonTree::Text(""@) || (pattern.at(
                "String"@,
            ) is Text && pattern.at("String"@) != JsonTree::Text(""@)) || (pattern.at(
                "Regex"@,
            ) matches JsonTree::Text(text) && expression::is_solid(encode_utf8(text)))
            &&& map matches JsonTree::Text(text) ==> charsmap::holds_map(text)
            &&& !(map is Text) ==> kind != JsonTree::Text("Precompiled"@)
        },
{
}

/// A template uses special tokens of its own alone, and for a single text that text alone.
pub proof fn templates_use_what_they_have(tree: JsonTree)
    ensures
        node_in_order(Part::PostProcessor, tree) <==> {
            let single = tree.at("single"@);
            let pair = tree.at("pair"@);
            let tokens = tree.at("special_tokens"@);
            single is Array && pair is Array && tokens is Object ==> {
                &&& forall|i: int|
                    0 <= i < single->Array_0.len() ==> {
                        let piece = #[trigger] single->Array_0[i];
                        let token = piece.at("SpecialToken"@);
                        &&& piece.at("Sequence"@) is Null || piece.at("Sequence"@).at("id"@)
                            == JsonTree::Text("A"@)
                        &&& token is Null || (token.at("id"@) is Text && !(tokens.at(
                            token.at("id"@)->Text_0,
                        ) is Null))
                    }
                &&& forall|i: int|
                    0 <= i < pair->Array_0.len() ==> {
                        let token = (#[trigger] pair->Array_0[i]).at("SpecialToken"@);
                        token is Null || (token.at("id"@) is Text && !(tokens.at(
                            token.at("id"@)->Text_0,
                        ) is Null))
                    }
            }
        },
{
    let single = tree.at("single"@);
    let pair = tree.at("pair"@);
    let tokens = tree.at("special_tokens"@);
    if single is Array && pair is Array && tokens is Object {
        assert forall|i: int| 0 <= i < single->Array_0.len() implies piece_in_order(
            #[trigger] single->Array_0[i],
            tokens,
            true,
        ) == {
            let piece = single->Array_0[i];
            let token = piece.at("SpecialToken"@);
            &&& piece.at("Sequence"@) is Null || piece.at("Sequence"@).at("id"@) == JsonTree::Text(
                "A"@,
            )
            &&& token is Null || (token.at("id"@) is Text && !(tokens.at(
                token.at("id"@)->Text_0,
            ) is Null))
        } by {}
        assert forall|i: int| 0 <= i < pair->Array_0.len() implies piece_in_order(
            #[trigger] pair->Array_0[i],
            tokens,
            false,
        ) == {
            let token = pair->Array_0[i].at("SpecialToken"@);
            token is Null || (token.at("id"@) is Text && !(tokens.at(
                token.at("id"@)->Text_0,
            ) is Null))
        } by {}
    }
}

/// The templates of a description are itself, where it has a list for a single text, one for
/// a pair and special tokens, and those of all that it holds.
pub proof fn templates_are_counted(
    tree: JsonTree,
    items: Seq<JsonTree>,
    entries: Seq<(Seq<char>, JsonTree)>,
    key: Seq<char>,
)
    ensures
        ({
            let own = |node: JsonTree|
                if node.at("single"@) is Array && node.at("pair"@) is Array && node.at(
                    "special_tokens"@,
                ) is Object {
                    1nat
                } else {
                    0nat
                };
            let array = JsonTree::Array(items.push(tree));
            let object = JsonTree::Object(entries.push((key, tree)));
            &&& !(tree is Array) && !(tree is Object) ==> templates(tree) == 0
            &&& templates(JsonTree::Array(seq![])) == 0
            &&& templates(JsonTree::Object(seq![])) == 0
            &&& templates(array) == templates(JsonTree::Array(items)) + templates(tree)
            &&& templates(object) - own(object) == templates(JsonTree::Object(entries)) - own(
                JsonTree::Object(entries),
            ) + templates(tree)
        }),
{
    assert(items.push(tree).drop_last() =~= items);
    assert(entries.push((key, tree)).drop_last() =~= entries);
}

/// A post-processor uses no text more than once if it has no template, or is one in which no
/// two pieces, for a single text or for a pair, stand for the same text.
pub proof fn texts_that_are_used_once(tree: JsonTree)
    ensures
        uses_texts_once(tree) <==> templates(tree) == 0 || {
            let single = tree.at("single"@);
            let pair = tree.at("pair"@);
            &&& single is Array && pair is Array && tree.at("special_tokens"@) is Object
            &&& forall|i: int, j: int|
                0 <= i < j < single->Array_0.len() ==> {
                    let first = (#[trigger] single->Array_0[i]).at("Sequence"@);
                    let second = (#[trigger] single->Array_0[j]).at("Sequence"@);
                    first is Null || second is Null || first.at("id"@) != second.at("id"@)
                }
            &&& forall|i: int, j: int|
                0 <= i < j < pair->Array_0.len() ==> {
                    let first = (#[trigger] pair->Array_0[i]).at("Sequence"@);
                    let second = (#[trigger] pair->Array_0[j]).at("Sequence"@);
                    first is Null || second is Null || first.at("id"@) != second.at("id"@)
                }
        },
{
}

/// Templates are counted as none, one or more.
pub proof fn templates_are_counted_up_to_two(json: Json, count: u8)
    requires
        call_ensures(count_templates, (&json,), count),
    ensures
        count == 0 <==> templates(json@) == 0,
        count == 1 <==> templates(json@) == 1,
        count == 2 <==> templates(json@) >= 2,
{
}

}
