//! The vocabularies of the models of tokenizers.

use crate::json::{Json, JsonTree};
use vstd::prelude::*;
use vstd::utf8::*;

verus! {

/// The bytes of the longest token of a vocabulary.
pub open spec fn longest(vocabulary: Seq<(Seq<char>, JsonTree)>) -> nat
    decreases vocabulary.len(),
{
    if vocabulary.len() == 0 {
        0
    } else {
        let before = longest(vocabulary.drop_last());
        let length = encode_utf8(vocabulary.last().0).len();
        if length > before {
            length
        } else {
            before
        }
    }
}

/// Whether a vocabulary has a token, given by its bytes.
pub open spec fn has_token(vocabulary: Seq<(Seq<char>, JsonTree)>, token: Seq<u8>) -> bool {
    exists|i: int|
        0 <= i < vocabulary.len() && encode_utf8((#[trigger] vocabulary[i]).0) == token
}

/// Whether two tokens, the second of them without the prefix of tokens within a word,
/// are a text together that is no longer than `longest`.
pub open spec fn merge_fits(longest: nat, prefix: nat, first: Seq<u8>, second: Seq<u8>) -> bool {
    &&& prefix <= second.len()
    &&& prefix == second.len() || !is_continuation_byte(second[prefix as int])
    &&& first.len() + second.len() - prefix <= longest
}

/// Whether two tokens can be merged, or are no tokens of the vocabulary.
pub open spec fn can_merge(
    vocabulary: Seq<(Seq<char>, JsonTree)>,
    prefix: nat,
    first: Seq<u8>,
    second: Seq<u8>,
) -> bool {
    ||| merge_fits(longest(vocabulary), prefix, first, second)
    ||| !has_token(vocabulary, first)
    ||| !has_token(vocabulary, second)
}

/// Whether a line has a space at one position and nowhere else.
pub open spec fn parted_at(line: Seq<u8>, at: int) -> bool {
    &&& 0 <= at < line.len()
    &&& line[at] == 32
    &&& forall|i: int| 0 <= i < line.len() && i != at ==> #[trigger] line[i] != 32
}

/// Whether the two tokens of a line with a space between them can be merged.
pub open spec fn line_in_order(
    vocabulary: Seq<(Seq<char>, JsonTree)>,
    prefix: nat,
    line: Seq<u8>,
) -> bool {
    forall|at: int| #[trigger]
        parted_at(line, at) ==> can_merge(vocabulary, prefix, line.take(at), line.skip(at + 1))
}

/// Whether a merge can be done: a list of two tokens, or a line of two tokens with a
/// space between them.
pub open spec fn merge_in_order(
    vocabulary: Seq<(Seq<char>, JsonTree)>,
    prefix: nat,
    merge: JsonTree,
) -> bool {
    match merge {
        JsonTree::Array(parts) => parts.len() == 2 && parts[0] is Text && parts[1] is Text
            ==> can_merge(
            vocabulary,
            prefix,
            encode_utf8(parts[0]->Text_0),
            encode_utf8(parts[1]->Text_0),
        ),
        JsonTree::Text(text) => line_in_order(vocabulary, prefix, encode_utf8(text)),
        _ => true,
    }
}

/// The length of the prefix of tokens within a word.
pub open spec fn prefix_length(model: JsonTree) -> nat {
    match model.at("continuing_subword_prefix"@) {
        JsonTree::Text(prefix) => encode_utf8(prefix).len(),
        _ => 0,
    }
}

/// Whether a model has no merges by its type.
pub open spec fn never_merges(model: JsonTree) -> bool {
    ||| model.at("type"@) == JsonTree::Text("WordPiece"@)
    ||| model.at("type"@) == JsonTree::Text("WordLevel"@)
    ||| model.at("type"@) == JsonTree::Text("Unigram"@)
}

/// Whether all merges of a model can be done.
pub open spec fn merges_in_order(model: JsonTree) -> bool {
    match (model.at("vocab"@), model.at("merges"@)) {
        (JsonTree::Object(vocabulary), JsonTree::Array(merges)) => never_merges(model) || forall|
            i: int,
        |
            0 <= i < merges.len() ==> merge_in_order(
                vocabulary,
                prefix_length(model),
                #[trigger] merges[i],
            ),
        _ => true,
    }
}

/// How many tokens the description of a tokenizer adds to its vocabulary.
pub open spec fn added_count(tokenizer: JsonTree) -> nat {
    match tokenizer.at("added_tokens"@) {
        JsonTree::Array(tokens) => tokens.len(),
        _ => 0,
    }
}

/// Whether there are ids left for the tokens that the description of a tokenizer adds to
/// its vocabulary, and for `more` tokens.
pub open spec fn ids_left(tokenizer: JsonTree, more: nat) -> bool {
    let count = added_count(tokenizer) + more;
    match tokenizer.at("model"@).at("vocab"@) {
        JsonTree::Object(vocabulary) => {
            &&& vocabulary.len() + count < u32::MAX
            &&& forall|i: int|
                0 <= i < vocabulary.len() ==> ((#[trigger] vocabulary[i]).1.as_unsigned() matches Some(
                    id,
                ) ==> id + count < u32::MAX)
        },
        JsonTree::Array(vocabulary) => vocabulary.len() + count < u32::MAX,
        _ => true,
    }
}

/// The tokens of a vocabulary.
spec fn tokens_of(entries: Seq<(String, Json)>) -> Seq<(Seq<char>, JsonTree)> {
    entries.map_values(|entry: (String, Json)| (entry.0@, entry.1@))
}

/// An object as a tree.
proof fn lemma_object(entries: Vec<(String, Json)>)
    ensures
        Json::Object(entries)@ == JsonTree::Object(tokens_of(entries@)),
{
    assert(Json::Object(entries)@->Object_0 =~= tokens_of(entries@));
}

/// Measures the longest token of a vocabulary.
fn find_longest(entries: &Vec<(String, Json)>) -> (length: usize)
    ensures
        length == longest(tokens_of(entries@)),
{
    let ghost all = tokens_of(entries@);
    let mut length: usize = 0;
    let mut i: usize = 0;
    assert(all.take(0) =~= seq![]);
    while i < entries.len()
        invariant
            i <= entries@.len(),
            all == tokens_of(entries@),
            length == longest(all.take(i as int)),
        decreases entries@.len() - i,
    {
        let bytes: &[u8] = entries[i].0.as_str().as_bytes();
        assert(all.take(i + 1).drop_last() =~= all.take(i as int));
        assert(all.take(i + 1).last() == all[i as int]);
        if bytes.len() > length {
            length = bytes.len();
        }
        i += 1;
    }
    assert(all.take(i as int) =~= all);
    length
}

/// Whether a range of bytes is a sequence of bytes.
fn same_bytes(bytes: &[u8], start: usize, end: usize, token: &[u8]) -> (same: bool)
    requires
        start <= end <= bytes@.len(),
    ensures
        same == (bytes@.subrange(start as int, end as int) == token@),
{
    let ghost part = bytes@.subrange(start as int, end as int);
    if end - start != token.len() {
        return false;
    }
    let mut i: usize = 0;
    while i < token.len()
        invariant
            i <= token@.len(),
            start <= end <= bytes@.len(),
            end - start == token@.len(),
            part == bytes@.subrange(start as int, end as int),
            forall|j: int| 0 <= j < i ==> part[j] == token@[j],
        decreases token@.len() - i,
    {
        if bytes[start + i] != token[i] {
            assert(part[i as int] != token@[i as int]);
            return false;
        }
        i += 1;
    }
    assert(part =~= token@);
    true
}

/// Whether a vocabulary has a token, given as a range of bytes.
fn find_token(entries: &Vec<(String, Json)>, bytes: &[u8], start: usize, end: usize) -> (found:
    bool)
    requires
        start <= end <= bytes@.len(),
    ensures
        found == has_token(tokens_of(entries@), bytes@.subrange(start as int, end as int)),
{
    let ghost all = tokens_of(entries@);
    let ghost token = bytes@.subrange(start as int, end as int);
    let mut i: usize = 0;
    while i < entries.len()
        invariant
            i <= entries@.len(),
            start <= end <= bytes@.len(),
            all == tokens_of(entries@),
            token == bytes@.subrange(start as int, end as int),
            forall|j: int| 0 <= j < i ==> encode_utf8((#[trigger] all[j]).0) != token,
        decreases entries@.len() - i,
    {
        assert(all[i as int].0 == entries@[i as int].0@);
        if same_bytes(bytes, start, end, entries[i].0.as_str().as_bytes()) {
            return true;
        }
        i += 1;
    }
    false
}

/// Whether two tokens, given as ranges of bytes, can be merged.
fn check_tokens(
    entries: &Vec<(String, Json)>,
    longest_token: usize,
    prefix: usize,
    first: (&[u8], usize),
    second: (&[u8], usize),
) -> (fits: bool)
    requires
        longest_token == longest(tokens_of(entries@)),
        first.1 <= first.0@.len(),
        second.1 <= second.0@.len(),
    ensures
        fits == can_merge(
            tokens_of(entries@),
            prefix as nat,
            first.0@.take(first.1 as int),
            second.0@.skip(second.1 as int),
        ),
{
    let (first_bytes, first_end): (&[u8], usize) = first;
    let (second_bytes, second_start): (&[u8], usize) = second;
    let second_end: usize = second_bytes.len();
    let second_length: usize = second_end - second_start;
    let ghost other = second_bytes@.skip(second_start as int);
    assert(other =~= second_bytes@.subrange(second_start as int, second_end as int));
    assert(first_bytes@.take(first_end as int) =~= first_bytes@.subrange(0, first_end as int));
    let mut fits = false;
    if prefix <= second_length {
        let rest: usize = second_length - prefix;
        let whole: bool = prefix == second_length || {
            let byte: u8 = second_bytes[second_start + prefix];
            assert(byte == other[prefix as int]);
            !(0x80 <= byte && byte <= 0xbf)
        };
        fits = whole && first_end <= longest_token && rest <= longest_token - first_end;
    }
    fits || !find_token(entries, first_bytes, 0, first_end) || !find_token(
        entries,
        second_bytes,
        second_start,
        second_end,
    )
}

/// The position of the only space of a line, where it has one.
fn find_part(line: &[u8]) -> (at: Option<usize>)
    ensures
        match at {
            Some(at) => parted_at(line@, at as int),
            None => forall|at: int| !#[trigger] parted_at(line@, at),
        },
{
    let mut found: Option<usize> = None;
    let mut i: usize = 0;
    while i < line.len()
        invariant
            i <= line@.len(),
            match found {
                Some(at) => at < i && parted_at(line@.take(i as int), at as int),
                None => forall|j: int| 0 <= j < i ==> line@[j] != 32,
            },
        decreases line@.len() - i,
    {
        if line[i] == 32 {
            if let Some(at) = found {
                assert(line@.take(i as int)[at as int] == 32);
                return None;
            }
            found = Some(i);
        }
        assert(forall|j: int| 0 <= j < i ==> line@.take(i + 1)[j] == line@.take(i as int)[j]);
        i += 1;
    }
    assert(line@.take(i as int) =~= line@);
    found
}

/// What holds of a line with one space.
proof fn lemma_line(
    vocabulary: Seq<(Seq<char>, JsonTree)>,
    prefix: nat,
    line: Seq<u8>,
    at: int,
)
    requires
        parted_at(line, at),
    ensures
        line_in_order(vocabulary, prefix, line) == can_merge(
            vocabulary,
            prefix,
            line.take(at),
            line.skip(at + 1),
        ),
{
    assert forall|other: int| #[trigger] parted_at(line, other) implies other == at by {
        assert(line[other] == 32 && line[at] == 32);
    }
}

/// Whether a merge can be done.
fn check_merge(
    entries: &Vec<(String, Json)>,
    longest_token: usize,
    prefix: usize,
    merge: &Json,
) -> (fits: bool)
    requires
        longest_token == longest(tokens_of(entries@)),
    ensures
        fits == merge_in_order(tokens_of(entries@), prefix as nat, merge@),
{
    match merge {
        Json::Array(parts) => {
            assert(merge@->Array_0.len() == parts@.len());
            if parts.len() != 2 {
                return true;
            }
            assert(merge@->Array_0[0] == parts@[0]@ && merge@->Array_0[1] == parts@[1]@);
            assert((parts@[0]@ is Text) == (parts@[0] is Text));
            assert((parts@[1]@ is Text) == (parts@[1] is Text));
            match (&parts[0], &parts[1]) {
                (Json::Text(first), Json::Text(second)) => {
                    let ghost tokens = (first@, second@);
                    assert(merge@->Array_0[0] == JsonTree::Text(tokens.0));
                    assert(merge@->Array_0[1] == JsonTree::Text(tokens.1));
                    let first: &[u8] = first.as_str().as_bytes();
                    let second: &[u8] = second.as_str().as_bytes();
                    assert(first@.take(first@.len() as int) =~= encode_utf8(tokens.0));
                    assert(second@.skip(0) =~= encode_utf8(tokens.1));
                    let fits = check_tokens(
                        entries,
                        longest_token,
                        prefix,
                        (first, first.len()),
                        (second, 0),
                    );
                    assert(fits == can_merge(
                        tokens_of(entries@),
                        prefix as nat,
                        encode_utf8(tokens.0),
                        encode_utf8(tokens.1),
                    ));
                    fits
                },
                _ => true,
            }
        },
        Json::Text(text) => {
            let line: &[u8] = text.as_str().as_bytes();
            assert(merge@ == JsonTree::Text(text@) && line@ == encode_utf8(text@));
            match find_part(line) {
                Some(at) => {
                    assert(line.len() <= usize::MAX);
                    let fits = check_tokens(
                        entries,
                        longest_token,
                        prefix,
                        (line, at),
                        (line, at + 1),
                    );
                    proof {
                        lemma_line(tokens_of(entries@), prefix as nat, line@, at as int);
                    }
                    fits
                },
                None => true,
            }
        },
        _ => true,
    }
}

/// Whether all merges of a model can be done.
pub fn check_merges(model: &Json) -> (fits: bool)
    ensures
        fits == merges_in_order(model@),
{
    if model.is_text_at("type", "WordPiece") || model.is_text_at("type", "WordLevel")
        || model.is_text_at("type", "Unigram") {
        return true;
    }
    match (model.at("vocab"), model.at("merges")) {
        (Some(Json::Object(entries)), Some(Json::Array(merges))) => {
            proof {
                lemma_object(*entries);
            }
            let prefix: usize = match model.text_at("continuing_subword_prefix") {
                Some(prefix) => prefix.as_str().as_bytes().len(),
                None => 0,
            };
            let longest_token: usize = find_longest(entries);
            let ghost list = model@.at("merges"@)->Array_0;
            let mut i: usize = 0;
            while i < merges.len()
                invariant
                    i <= merges@.len(),
                    longest_token == longest(tokens_of(entries@)),
                    model@.at("vocab"@) == JsonTree::Object(tokens_of(entries@)),
                    model@.at("merges"@) == Json::Array(*merges)@,
                    list == model@.at("merges"@)->Array_0,
                    list.len() == merges@.len(),
                    prefix == prefix_length(model@),
                    !never_merges(model@),
                    forall|j: int|
                        0 <= j < i ==> merge_in_order(
                            tokens_of(entries@),
                            prefix as nat,
                            #[trigger] list[j],
                        ),
                decreases merges@.len() - i,
            {
                assert(list[i as int] == merges@[i as int]@);
                if !check_merge(entries, longest_token, prefix, &merges[i]) {
                    return false;
                }
                i += 1;
            }
            true
        },
        _ => true,
    }
}

/// Whether there are ids left for the tokens that the description of a tokenizer adds to
/// its vocabulary, and for `more` tokens.
pub fn check_ids(tokenizer: &Json, more: usize) -> (fits: bool)
    ensures
        fits == ids_left(tokenizer@, more as nat),
{
    let added: usize = match tokenizer.array_at("added_tokens") {
        Some(tokens) => tokens.len(),
        None => 0,
    };
    let count: u128 = added as u128 + more as u128;
    let vocabulary = match tokenizer.at("model") {
        Some(model) => model.at("vocab"),
        None => None,
    };
    match vocabulary {
        Some(Json::Object(entries)) => {
            proof {
                lemma_object(*entries);
            }
            if entries.len() as u128 + count >= u32::MAX as u128 {
                return false;
            }
            let ghost list = tokens_of(entries@);
            let mut i: usize = 0;
            while i < entries.len()
                invariant
                    i <= entries@.len(),
                    list == tokens_of(entries@),
                    tokenizer@.at("model"@).at("vocab"@) == JsonTree::Object(list),
                    count == added_count(tokenizer@) + more,
                    count <= 2 * usize::MAX,
                    forall|j: int|
                        0 <= j < i ==> ((#[trigger] list[j]).1.as_unsigned() matches Some(id)
                            ==> id + count < u32::MAX),
                decreases entries@.len() - i,
            {
                assert(list[i as int].1 == entries@[i as int].1@);
                if let Json::Number(number) = &entries[i].1 {
                    if let Some(id) = number.unsigned {
                        if id as u128 + count >= u32::MAX as u128 {
                            assert(list[i as int].1.as_unsigned() == Some(id));
                            return false;
                        }
                    }
                }
                i += 1;
            }
            true
        },
        Some(Json::Array(tokens)) => tokens.len() as u128 + count < u32::MAX as u128,
        _ => true,
    }
}

/// The longest token of a vocabulary: no token has more bytes, and one has as many.
pub proof fn the_longest_token_is_one(vocabulary: Seq<(Seq<char>, JsonTree)>)
    ensures
        forall|i: int|
            0 <= i < vocabulary.len() ==> encode_utf8((#[trigger] vocabulary[i]).0).len()
                <= longest(vocabulary),
        vocabulary.len() == 0 ==> longest(vocabulary) == 0,
        vocabulary.len() > 0 ==> exists|i: int|
            0 <= i < vocabulary.len() && encode_utf8((#[trigger] vocabulary[i]).0).len() == longest(
                vocabulary,
            ),
    decreases vocabulary.len(),
{
    if vocabulary.len() > 0 {
        let before = vocabulary.drop_last();
        the_longest_token_is_one(before);
        assert forall|i: int| 0 <= i < vocabulary.len() implies encode_utf8(
            (#[trigger] vocabulary[i]).0,
        ).len() <= longest(vocabulary) by {
            if i < before.len() {
                assert(before[i] == vocabulary[i]);
            }
        }
        if encode_utf8(vocabulary.last().0).len() > longest(before) {
            assert(vocabulary[vocabulary.len() - 1] == vocabulary.last());
        } else if before.len() > 0 {
            let i = choose|i: int|
                0 <= i < before.len() && encode_utf8((#[trigger] before[i]).0).len() == longest(
                    before,
                );
            assert(vocabulary[i] == before[i]);
        } else {
            assert(vocabulary[0] == vocabulary.last());
        }
    }
}

/// The merges of a model can be done if each that joins two of its tokens, the second of them
/// without the prefix of tokens within a word, gives no more bytes than its longest token has,
/// and cuts no character. A merge is a list of two tokens, or a line of two with one space
/// between them. Models of words and of single tokens have no merges.
pub proof fn merges_that_can_be_done(
    model: JsonTree,
    vocabulary: Seq<(Seq<char>, JsonTree)>,
    merges: Seq<JsonTree>,
    prefix: nat,
)
    requires
        model.at("vocab"@) == JsonTree::Object(vocabulary),
        model.at("merges"@) == JsonTree::Array(merges),
        model.at("continuing_subword_prefix"@) matches JsonTree::Text(text) ==> prefix
            == encode_utf8(text).len(),
        !(model.at("continuing_subword_prefix"@) is Text) ==> prefix == 0,
    ensures
        ({
            let joins = |first: Seq<u8>, second: Seq<u8>|
                {
                    let known = (exists|i: int|
                        0 <= i < vocabulary.len() && encode_utf8((#[trigger] vocabulary[i]).0)
                            == first) && (exists|i: int|
                        0 <= i < vocabulary.len() && encode_utf8((#[trigger] vocabulary[i]).0)
                            == second);
                    known ==> {
                        &&& prefix <= second.len()
                        &&& prefix < second.len() ==> !is_continuation_byte(second[prefix as int])
                        &&& first.len() + second.len() <= prefix + longest(vocabulary)
                    }
                };
            merges_in_order(model) <==> {
                ||| model.at("type"@) == JsonTree::Text("WordPiece"@)
                ||| model.at("type"@) == JsonTree::Text("WordLevel"@)
                ||| model.at("type"@) == JsonTree::Text("Unigram"@)
                ||| forall|k: int|
                    0 <= k < merges.len() ==> match #[trigger] merges[k] {
                        JsonTree::Array(parts) => parts.len() == 2 && parts[0] is Text
                            && parts[1] is Text ==> joins(
                            encode_utf8(parts[0]->Text_0),
                            encode_utf8(parts[1]->Text_0),
                        ),
                        JsonTree::Text(text) => {
                            let line = encode_utf8(text);
                            forall|at: int|
                                0 <= at < line.len() && #[trigger] line[at] == 32 && (forall|i: int|
                                    0 <= i < line.len() && i != at ==> #[trigger] line[i] != 32)
                                    ==> joins(line.take(at), line.skip(at + 1))
                        },
                        _ => true,
                    }
            }
        }),
{
    let joins = |first: Seq<u8>, second: Seq<u8>|
        {
            let known = (exists|i: int|
                0 <= i < vocabulary.len() && encode_utf8((#[trigger] vocabulary[i]).0) == first)
                && (exists|i: int|
                0 <= i < vocabulary.len() && encode_utf8((#[trigger] vocabulary[i]).0) == second);
            known ==> {
                &&& prefix <= second.len()
                &&& prefix < second.len() ==> !is_continuation_byte(second[prefix as int])
                &&& first.len() + second.len() <= prefix + longest(vocabulary)
            }
        };
    assert forall|first: Seq<u8>, second: Seq<u8>| #[trigger]
        joins(first, second) == can_merge(vocabulary, prefix, first, second) by {}
    assert forall|k: int| 0 <= k < merges.len() implies merge_in_order(
        vocabulary,
        prefix,
        #[trigger] merges[k],
    ) == match merges[k] {
        JsonTree::Array(parts) => parts.len() == 2 && parts[0] is Text && parts[1] is Text ==> joins(
            encode_utf8(parts[0]->Text_0),
            encode_utf8(parts[1]->Text_0),
        ),
        JsonTree::Text(text) => {
            let line = encode_utf8(text);
            forall|at: int|
                0 <= at < line.len() && #[trigger] line[at] == 32 && (forall|i: int|
                    0 <= i < line.len() && i != at ==> #[trigger] line[i] != 32) ==> joins(
                    line.take(at),
                    line.skip(at + 1),
                )
        },
        _ => true,
    } by {
        if let JsonTree::Text(text) = merges[k] {
            let line = encode_utf8(text);
            if line_in_order(vocabulary, prefix, line) {
                assert forall|at: int|
                    0 <= at < line.len() && #[trigger] line[at] == 32 && (forall|i: int|
                        0 <= i < line.len() && i != at ==> #[trigger] line[i] != 32) implies joins(
                    line.take(at),
                    line.skip(at + 1),
                ) by {
                    assert(parted_at(line, at));
                }
            }
        }
    }
}

/// There are ids left for tokens if, of the greatest id that there can be, as many are left
/// above each id of the vocabulary, and above the number of its tokens.
pub proof fn ids_that_are_left(tokenizer: JsonTree, more: nat)
    ensures
        ({
            let added = tokenizer.at("added_tokens"@);
            let count = more + (if added is Array {
                added->Array_0.len()
            } else {
                0
            });
            ids_left(tokenizer, more) <==> match tokenizer.at("model"@).at("vocab"@) {
                JsonTree::Object(vocabulary) => vocabulary.len() + count < 0xffff_ffff && forall|
                    i: int,
                |
                    0 <= i < vocabulary.len() ==> ((
                    #[trigger] vocabulary[i]).1 matches JsonTree::Number(number)
                        ==> (number.unsigned matches Some(id) ==> id + count < 0xffff_ffff)),
                JsonTree::Array(vocabulary) => vocabulary.len() + count < 0xffff_ffff,
                _ => true,
            }
        }),
{
    if let JsonTree::Object(vocabulary) = tokenizer.at("model"@).at("vocab"@) {
        assert forall|i: int| 0 <= i < vocabulary.len() implies match (
        #[trigger] vocabulary[i]).1 {
            JsonTree::Number(number) => vocabulary[i].1.as_unsigned() == number.unsigned,
            _ => vocabulary[i].1.as_unsigned() is None,
        } by {}
    }
}

}
