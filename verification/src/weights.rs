//! The files that hold the weights of a model.

use crate::error::{Error, ErrorModel};
use crate::json;
use crate::json::{Json, JsonTree};
use crate::text;
use vstd::prelude::*;

verus! {

/// Whether an entry is a text.
pub open spec fn mentions(entries: Seq<(Seq<char>, JsonTree)>, name: Seq<char>) -> bool {
    exists|i: int| 0 <= i < entries.len() && (#[trigger] entries[i]).1 == JsonTree::Text(name)
}

/// Whether texts are in order, each before the next.
pub open spec fn ascending(names: Seq<Seq<char>>) -> bool {
    forall|i: int, j: int|
        0 <= i < j < names.len() ==> text::text_before(#[trigger] names[i], #[trigger] names[j])
}

/// Whether `names` are the texts among the values of entries, in order and each once.
pub open spec fn lists(names: Seq<Seq<char>>, entries: Seq<(Seq<char>, JsonTree)>) -> bool {
    &&& ascending(names)
    &&& forall|name: Seq<char>| #[trigger] names.contains(name) == mentions(entries, name)
}

/// The texts among the values of entries, in order and each once.
pub open spec fn shards(entries: Seq<(Seq<char>, JsonTree)>) -> Seq<Seq<char>> {
    choose|names: Seq<Seq<char>>| lists(names, entries)
}

/// Texts as sequences.
pub open spec fn texts(names: Seq<String>) -> Seq<Seq<char>> {
    names.map_values(|name: String| name@)
}

/// There is one way to put texts in order.
pub proof fn order_is_unique(a: Seq<Seq<char>>, b: Seq<Seq<char>>)
    requires
        ascending(a),
        ascending(b),
        forall|name: Seq<char>| #[trigger] a.contains(name) == b.contains(name),
    ensures
        a == b,
    decreases a.len(),
{
    if a.len() == 0 {
        if b.len() > 0 {
            assert(b.contains(b[0]));
            assert(a.contains(b[0]));
        }
        assert(a =~= b);
    } else {
        assert(a.contains(a.last()));
        assert(b.contains(a.last()));
        assert(b.contains(b.last()));
        assert(a.contains(b.last()));
        let i = choose|i: int| 0 <= i < b.len() && b[i] == a.last();
        let j = choose|j: int| 0 <= j < a.len() && a[j] == b.last();
        if a.last() != b.last() {
            assert(text::text_before(b[i], b[b.len() - 1]));
            assert(text::text_before(a[j], a[a.len() - 1]));
            text::text_order_is_transitive(a.last(), b.last(), a.last());
            text::text_order_is_irreflexive(a.last());
        }
        let (c, d) = (a.drop_last(), b.drop_last());
        assert forall|name: Seq<char>| #[trigger] c.contains(name) == d.contains(name) by {
            lemma_last_is_alone(a, name);
            lemma_last_is_alone(b, name);
        }
        order_is_unique(c, d);
        assert(a =~= c.push(a.last()));
        assert(b =~= d.push(b.last()));
    }
}

/// The last of texts in order does not come before.
proof fn lemma_last_is_alone(names: Seq<Seq<char>>, name: Seq<char>)
    requires
        ascending(names),
        names.len() > 0,
    ensures
        names.drop_last().contains(name) == (names.contains(name) && name != names.last()),
{
    let rest = names.drop_last();
    if rest.contains(name) {
        let i = choose|i: int| 0 <= i < rest.len() && rest[i] == name;
        assert(names[i] == name);
        assert(text::text_before(names[i], names[names.len() - 1]));
        text::text_order_is_irreflexive(name);
    }
    if names.contains(name) && name != names.last() {
        let i = choose|i: int| 0 <= i < names.len() && names[i] == name;
        assert(rest[i] == name);
    }
}

/// Puts a text into texts in order, unless it is there.
fn put(names: &mut Vec<String>, name: &String)
    requires
        ascending(texts(old(names)@)),
    ensures
        ascending(texts(final(names)@)),
        forall|other: Seq<char>| #[trigger]
            texts(final(names)@).contains(other) == (texts(old(names)@).contains(other) || other
                == name@),
{
    let ghost before = texts(names@);
    let mut i: usize = 0;
    while i < names.len() && text::is_before(names[i].as_str(), name.as_str())
        invariant
            i <= names@.len(),
            before == texts(names@),
            forall|j: int| 0 <= j < i ==> text::text_before(#[trigger] before[j], name@),
        decreases names@.len() - i,
    {
        assert(before[i as int] == names@[i as int]@);
        i += 1;
    }
    assert(i < names@.len() ==> before[i as int] == names@[i as int]@);
    if i < names.len() && text::same_text(names[i].as_str(), name.as_str()) {
        assert(before.contains(before[i as int]));
        return;
    }
    let ghost all = names@;
    names.insert(i, name.clone());
    proof {
        let after = texts(names@);
        assert(after =~= before.insert(i as int, name@));
        assert forall|j: int, k: int| 0 <= j < k < after.len() implies text::text_before(
            #[trigger] after[j],
            #[trigger] after[k],
        ) by {
            if k == i {
            } else if j == i {
                text::text_order_is_total(before[i as int], name@);
                if k > i + 1 {
                    text::text_order_is_transitive(name@, before[i as int], before[k - 1]);
                }
            } else {
                let x = if j < i { j } else { j - 1 };
                let y = if k < i { k } else { k - 1 };
                assert(text::text_before(before[x], before[y]));
            }
        }
        assert forall|other: Seq<char>| #[trigger]
            after.contains(other) == (before.contains(other) || other == name@) by {
            if after.contains(other) {
                let k = choose|k: int| 0 <= k < after.len() && after[k] == other;
                if k < i {
                    assert(before[k] == other);
                } else if k > i {
                    assert(before[k - 1] == other);
                }
            }
            if before.contains(other) {
                let k = choose|k: int| 0 <= k < before.len() && before[k] == other;
                if k < i {
                    assert(after[k] == other);
                } else {
                    assert(after[k + 1] == other);
                }
            }
            assert(after[i as int] == name@);
        }
    }
}

/// The files that an index names, or what is wrong with it.
pub open spec fn indexed(index: JsonTree) -> Result<Seq<Seq<char>>, ErrorModel> {
    match index.at("weight_map"@) {
        JsonTree::Object(entries) => Ok(shards(entries)),
        _ => Err(
            ErrorModel::Other("model.safetensors.index.json has no `weight_map` object"@),
        ),
    }
}

/// Lists the files that an index names, in order and each once.
pub fn shard_files(index: &Json) -> (names: Result<Vec<String>, Error>)
    ensures
        match names {
            Ok(names) => {
                &&& indexed(index@) == Ok::<Seq<Seq<char>>, ErrorModel>(texts(names@))
                &&& lists(texts(names@), index@.at("weight_map"@)->Object_0)
            },
            Err(error) => indexed(index@) == Err::<Seq<Seq<char>>, ErrorModel>(error@),
        },
{
    let map = match index.at("weight_map") {
        Some(map) => map,
        None => return Err(
            Error::Other("model.safetensors.index.json has no `weight_map` object".to_string()),
        ),
    };
    match map {
        Json::Object(entries) => {
            let ghost all = map@->Object_0;
            let mut names: Vec<String> = Vec::new();
            let mut i: usize = 0;
            while i < entries.len()
                invariant
                    i <= entries@.len(),
                    *map == Json::Object(*entries),
                    all == map@->Object_0,
                    all.len() == entries@.len(),
                    ascending(texts(names@)),
                    forall|name: Seq<char>| #[trigger]
                        texts(names@).contains(name) == mentions(all.take(i as int), name),
                decreases entries@.len() - i,
            {
                let ghost before = texts(names@);
                assert(all[i as int] == (entries@[i as int].0@, entries@[i as int].1@));
                if let Json::Text(name) = &entries[i].1 {
                    put(&mut names, name);
                }
                proof {
                    assert forall|name: Seq<char>| #[trigger]
                        texts(names@).contains(name) == mentions(all.take(i + 1), name) by {
                        lemma_one_entry_more(all, i as int, name);
                        assert(before.contains(name) == mentions(all.take(i as int), name));
                    }
                }
                i += 1;
            }
            proof {
                assert(all.take(i as int) =~= all);
                assert(lists(texts(names@), all));
                order_is_unique(texts(names@), shards(all));
            }
            Ok(names)
        },
        _ => Err(
            Error::Other("model.safetensors.index.json has no `weight_map` object".to_string()),
        ),
    }
}

/// The texts among one entry more.
proof fn lemma_one_entry_more(all: Seq<(Seq<char>, JsonTree)>, i: int, name: Seq<char>)
    requires
        0 <= i < all.len(),
    ensures
        mentions(all.take(i + 1), name) == (mentions(all.take(i), name) || all[i].1
            == JsonTree::Text(name)),
{
    let (short, long) = (all.take(i), all.take(i + 1));
    if mentions(long, name) {
        let k = choose|k: int| 0 <= k < long.len() && (#[trigger] long[k]).1 == JsonTree::Text(name);
        if k < i {
            assert(short[k].1 == JsonTree::Text(name));
        }
    }
    if mentions(short, name) {
        let k = choose|k: int|
            0 <= k < short.len() && (#[trigger] short[k]).1 == JsonTree::Text(name);
        assert(long[k].1 == JsonTree::Text(name));
    }
    if all[i].1 == JsonTree::Text(name) {
        assert(long[i].1 == JsonTree::Text(name));
    }
}

/// The files that the text of an index names, or what is wrong with it.
pub open spec fn index_of(bytes: Seq<u8>) -> Result<Seq<Seq<char>>, ErrorModel> {
    match json::json_text(bytes) {
        Ok(index) => indexed(index),
        Err(text) => Err(
            ErrorModel::Other("Failed to parse model.safetensors.index.json: "@ + text),
        ),
    }
}

/// Reads the text of an index.
pub fn read_index(bytes: &[u8]) -> (names: Result<Vec<String>, Error>)
    ensures
        match names {
            Ok(names) => index_of(bytes@) == Ok::<Seq<Seq<char>>, ErrorModel>(texts(names@)),
            Err(error) => index_of(bytes@) == Err::<Seq<Seq<char>>, ErrorModel>(error@),
        },
{
    match json::parse(bytes) {
        Ok(index) => shard_files(&json::document(&index)),
        Err(text) => Err(
            Error::Other(
                text::joined("Failed to parse model.safetensors.index.json: ", text.as_str()),
            ),
        ),
    }
}

/// How far the search for the weights of a model has come.
#[derive(Debug)]
pub enum WeightSearch<P> {
    /// It asked for the file that holds all weights.
    Single,
    /// It asked for the index.
    Index,
    /// It wants to read the index.
    Reading,
    /// It knows the files, found the first ones and asked for the next.
    Shards { names: Vec<String>, paths: Vec<P> },
    /// It is over.
    Ended,
}

/// What was found out for the search.
#[derive(Debug)]
pub enum WeightEvent<P> {
    /// The file is here.
    Found(P),
    /// The file cannot be had, for the reason given.
    NotFound(String),
    /// The file holds this.
    Content(Vec<u8>),
    /// The file cannot be read, for the reason given.
    Unreadable(String),
}

/// What is to be done for the search.
#[derive(Debug)]
pub enum WeightAction<P> {
    /// Get the file of this name.
    Get(String),
    /// Read the file.
    Read(P),
    /// These files hold the weights.
    Done(Vec<P>),
    /// There are no weights, for the reason given.
    Fail(Error),
}

/// [`WeightSearch`] with sequences.
pub enum SearchModel<P> {
    Single,
    Index,
    Reading,
    Shards { names: Seq<Seq<char>>, paths: Seq<P> },
    Ended,
}

/// [`WeightEvent`] with sequences.
pub enum EventModel<P> {
    Found(P),
    NotFound(Seq<char>),
    Content(Seq<u8>),
    Unreadable(Seq<char>),
}

/// [`WeightAction`] with sequences.
pub enum ActionModel<P> {
    Get(Seq<char>),
    Read(P),
    Done(Seq<P>),
    Fail(ErrorModel),
}

impl<P> View for WeightSearch<P> {
    type V = SearchModel<P>;

    open spec fn view(&self) -> SearchModel<P> {
        match *self {
            WeightSearch::Single => SearchModel::Single,
            WeightSearch::Index => SearchModel::Index,
            WeightSearch::Reading => SearchModel::Reading,
            WeightSearch::Shards { names, paths } => SearchModel::Shards {
                names: texts(names@),
                paths: paths@,
            },
            WeightSearch::Ended => SearchModel::Ended,
        }
    }
}

impl<P> View for WeightEvent<P> {
    type V = EventModel<P>;

    open spec fn view(&self) -> EventModel<P> {
        match *self {
            WeightEvent::Found(path) => EventModel::Found(path),
            WeightEvent::NotFound(reason) => EventModel::NotFound(reason@),
            WeightEvent::Content(bytes) => EventModel::Content(bytes@),
            WeightEvent::Unreadable(reason) => EventModel::Unreadable(reason@),
        }
    }
}

impl<P> View for WeightAction<P> {
    type V = ActionModel<P>;

    open spec fn view(&self) -> ActionModel<P> {
        match *self {
            WeightAction::Get(name) => ActionModel::Get(name@),
            WeightAction::Read(path) => ActionModel::Read(path),
            WeightAction::Done(paths) => ActionModel::Done(paths@),
            WeightAction::Fail(error) => ActionModel::Fail(error@),
        }
    }
}

impl<P> SearchModel<P> {
    /// Whether the search waits for such an event.
    pub open spec fn expects(self, event: EventModel<P>) -> bool {
        match self {
            SearchModel::Single | SearchModel::Index => event is Found || event is NotFound,
            SearchModel::Reading => event is Content || event is Unreadable,
            SearchModel::Shards { names, paths } => paths.len() < names.len() && (event is Found
                || event is NotFound),
            SearchModel::Ended => false,
        }
    }

    /// How the search goes on once it knows the files and found the first ones.
    pub open spec fn gather(names: Seq<Seq<char>>, paths: Seq<P>) -> (
        SearchModel<P>,
        ActionModel<P>,
    ) {
        if paths.len() < names.len() {
            (SearchModel::Shards { names, paths }, ActionModel::Get(names[paths.len() as int]))
        } else {
            (SearchModel::Ended, ActionModel::Done(paths))
        }
    }

    /// How the search goes on after an event that it waits for.
    pub open spec fn after(self, event: EventModel<P>) -> (SearchModel<P>, ActionModel<P>) {
        match (self, event) {
            (SearchModel::Single, EventModel::Found(path)) => (
                SearchModel::Ended,
                ActionModel::Done(seq![path]),
            ),
            (SearchModel::Single, _) => (
                SearchModel::Index,
                ActionModel::Get("model.safetensors.index.json"@),
            ),
            (SearchModel::Index, EventModel::Found(path)) => (
                SearchModel::Reading,
                ActionModel::Read(path),
            ),
            (SearchModel::Index, EventModel::NotFound(reason)) => (
                SearchModel::Ended,
                ActionModel::Fail(
                    ErrorModel::ModelRetrieval {
                        file: "model.safetensors or model.safetensors.index.json"@,
                        reason,
                    },
                ),
            ),
            (SearchModel::Reading, EventModel::Content(bytes)) => match index_of(bytes) {
                Ok(names) => SearchModel::gather(names, seq![]),
                Err(error) => (SearchModel::Ended, ActionModel::Fail(error)),
            },
            (SearchModel::Reading, EventModel::Unreadable(reason)) => (
                SearchModel::Ended,
                ActionModel::Fail(ErrorModel::Io(reason)),
            ),
            (SearchModel::Shards { names, paths }, EventModel::Found(path)) => SearchModel::gather(
                names,
                paths.push(path),
            ),
            (SearchModel::Shards { names, paths }, EventModel::NotFound(reason)) => (
                SearchModel::Ended,
                ActionModel::Fail(
                    ErrorModel::ModelRetrieval { file: names[paths.len() as int], reason },
                ),
            ),
            _ => (SearchModel::Ended, ActionModel::Done(seq![])),
        }
    }

    /// How many more answers the search can need.
    pub open spec fn left(self) -> nat {
        match self {
            SearchModel::Shards { names, paths } => if paths.len() < names.len() {
                (names.len() - paths.len()) as nat
            } else {
                0
            },
            _ => 0,
        }
    }

    /// How far the search is from its end.
    pub open spec fn phase(self) -> nat {
        match self {
            SearchModel::Single => 4,
            SearchModel::Index => 3,
            SearchModel::Reading => 2,
            SearchModel::Shards { .. } => 1,
            SearchModel::Ended => 0,
        }
    }
}

impl<P> WeightSearch<P> {
    /// Starts the search.
    pub fn begin() -> (start: (WeightSearch<P>, WeightAction<P>))
        ensures
            start.0@ == SearchModel::<P>::Single,
            start.1@ == ActionModel::<P>::Get("model.safetensors"@),
    {
        (WeightSearch::Single, WeightAction::Get("model.safetensors".to_string()))
    }

    /// Goes on once the files are known and the first ones are found.
    fn gather(names: Vec<String>, paths: Vec<P>) -> (next: (WeightSearch<P>, WeightAction<P>))
        ensures
            (next.0@, next.1@) == SearchModel::gather(texts(names@), paths@),
    {
        if paths.len() < names.len() {
            let name = names[paths.len()].clone();
            (WeightSearch::Shards { names, paths }, WeightAction::Get(name))
        } else {
            (WeightSearch::Ended, WeightAction::Done(paths))
        }
    }

    /// Goes on after an event.
    pub fn advance(self, event: WeightEvent<P>) -> (next: (WeightSearch<P>, WeightAction<P>))
        requires
            self@.expects(event@),
        ensures
            (next.0@, next.1@) == self@.after(event@),
    {
        match (self, event) {
            (WeightSearch::Single, WeightEvent::Found(path)) => {
                let mut paths: Vec<P> = Vec::new();
                paths.push(path);
                assert(paths@ =~= seq![path]);
                (WeightSearch::Ended, WeightAction::Done(paths))
            },
            (WeightSearch::Single, _) => (
                WeightSearch::Index,
                WeightAction::Get("model.safetensors.index.json".to_string()),
            ),
            (WeightSearch::Index, WeightEvent::Found(path)) => (
                WeightSearch::Reading,
                WeightAction::Read(path),
            ),
            (WeightSearch::Index, WeightEvent::NotFound(reason)) => (
                WeightSearch::Ended,
                WeightAction::Fail(
                    Error::ModelRetrieval {
                        file: "model.safetensors or model.safetensors.index.json".to_string(),
                        reason,
                    },
                ),
            ),
            (WeightSearch::Reading, WeightEvent::Content(bytes)) => match read_index(
                bytes.as_slice(),
            ) {
                Ok(names) => Self::gather(names, Vec::new()),
                Err(error) => (WeightSearch::Ended, WeightAction::Fail(error)),
            },
            (WeightSearch::Reading, WeightEvent::Unreadable(reason)) => (
                WeightSearch::Ended,
                WeightAction::Fail(Error::Io(reason)),
            ),
            (WeightSearch::Shards { names, paths }, WeightEvent::Found(path)) => {
                let mut paths = paths;
                paths.push(path);
                Self::gather(names, paths)
            },
            (WeightSearch::Shards { names, paths }, WeightEvent::NotFound(reason)) => (
                WeightSearch::Ended,
                WeightAction::Fail(
                    Error::ModelRetrieval { file: names[paths.len()].clone(), reason },
                ),
            ),
            _ => (WeightSearch::Ended, WeightAction::Done(Vec::new())),
        }
    }
}

/// Where the files of a repository are, or why they cannot be had.
pub type Repository<P> = spec_fn(Seq<char>) -> Result<P, Seq<char>>;

/// What files hold, or why they cannot be read.
pub type Contents<P> = spec_fn(P) -> Result<Seq<u8>, Seq<char>>;

/// Where the search ends when it is answered from a repository.
pub open spec fn search_result<P>(
    search: SearchModel<P>,
    action: ActionModel<P>,
    repository: Repository<P>,
    contents: Contents<P>,
) -> Result<Seq<P>, ErrorModel>
    decreases search.phase(), search.left(),
{
    match action {
        ActionModel::Done(paths) => Ok(paths),
        ActionModel::Fail(error) => Err(error),
        ActionModel::Get(name) => {
            let event = match repository(name) {
                Ok(path) => EventModel::Found(path),
                Err(reason) => EventModel::NotFound(reason),
            };
            if search.expects(event) {
                let (next, action) = search.after(event);
                search_result(next, action, repository, contents)
            } else {
                Ok(seq![])
            }
        },
        ActionModel::Read(path) => {
            let event = match contents(path) {
                Ok(bytes) => EventModel::Content(bytes),
                Err(reason) => EventModel::Unreadable(reason),
            };
            if search.expects(event) {
                let (next, action) = search.after(event);
                search_result(next, action, repository, contents)
            } else {
                Ok(seq![])
            }
        },
    }
}

/// Where all files of a list are, or why the first that cannot be had cannot.
pub open spec fn all_found<P>(names: Seq<Seq<char>>, repository: Repository<P>) -> Result<
    Seq<P>,
    ErrorModel,
>
    decreases names.len(),
{
    if names.len() == 0 {
        Ok(seq![])
    } else {
        match all_found(names.drop_last(), repository) {
            Err(error) => Err(error),
            Ok(paths) => match repository(names.last()) {
                Ok(path) => Ok(paths.push(path)),
                Err(reason) => Err(ErrorModel::ModelRetrieval { file: names.last(), reason }),
            },
        }
    }
}

/// The files that hold the weights of a model: the one file where there is one, else
/// those that the index names.
pub open spec fn weight_files<P>(repository: Repository<P>, contents: Contents<P>) -> Result<
    Seq<P>,
    ErrorModel,
> {
    match repository("model.safetensors"@) {
        Ok(path) => Ok(seq![path]),
        Err(_) => match repository("model.safetensors.index.json"@) {
            Err(reason) => Err(
                ErrorModel::ModelRetrieval {
                    file: "model.safetensors or model.safetensors.index.json"@,
                    reason,
                },
            ),
            Ok(index) => match contents(index) {
                Err(reason) => Err(ErrorModel::Io(reason)),
                Ok(bytes) => match index_of(bytes) {
                    Err(error) => Err(error),
                    Ok(names) => all_found(names, repository),
                },
            },
        },
    }
}

/// A list whose first files were found fails where a longer beginning fails.
proof fn lemma_prefix_fails<P>(names: Seq<Seq<char>>, k: int, repository: Repository<P>)
    requires
        0 <= k <= names.len(),
        all_found(names.take(k), repository) is Err,
    ensures
        all_found(names, repository) == all_found(names.take(k), repository),
    decreases names.len() - k,
{
    if k == names.len() {
        assert(names.take(k) =~= names);
    } else {
        assert(names.take(k + 1).drop_last() =~= names.take(k));
        lemma_prefix_fails(names, k + 1, repository);
    }
}

/// Where the search ends once it knows the files.
proof fn lemma_gathered<P>(
    names: Seq<Seq<char>>,
    paths: Seq<P>,
    repository: Repository<P>,
    contents: Contents<P>,
)
    requires
        paths.len() <= names.len(),
        all_found(names.take(paths.len() as int), repository) == Ok::<Seq<P>, ErrorModel>(paths),
    ensures
        ({
            let (search, action) = SearchModel::gather(names, paths);
            search_result(search, action, repository, contents) == all_found(names, repository)
        }),
    decreases names.len() - paths.len(),
{
    let k = paths.len() as int;
    if k == names.len() {
        assert(names.take(k) =~= names);
    } else {
        assert(names.take(k + 1).drop_last() =~= names.take(k));
        assert(names.take(k + 1).last() == names[k]);
        match repository(names[k]) {
            Ok(path) => {
                lemma_gathered(names, paths.push(path), repository, contents);
            },
            Err(reason) => {
                lemma_prefix_fails(names, k + 1, repository);
                let (search, action) = SearchModel::gather(names, paths);
                let (next, last) = search.after(EventModel::NotFound(reason));
                assert(search_result(next, last, repository, contents) == Err::<
                    Seq<P>,
                    ErrorModel,
                >(ErrorModel::ModelRetrieval { file: names[k], reason }));
            },
        }
    }
}

/// The search for the weights of a model, answered from a repository, ends with the
/// files that hold them: the one file where there is one, else those that the index
/// names, in order; or with the error that tells which file is missing or what is
/// wrong with the index.
pub proof fn search_finds_the_weights<P>(repository: Repository<P>, contents: Contents<P>)
    ensures
        search_result(
            SearchModel::<P>::Single,
            ActionModel::<P>::Get("model.safetensors"@),
            repository,
            contents,
        ) == weight_files(repository, contents),
{
    reveal_with_fuel(search_result, 4);
    if repository("model.safetensors"@) is Err {
        match repository("model.safetensors.index.json"@) {
            Ok(index) => match contents(index) {
                Ok(bytes) => match index_of(bytes) {
                    Ok(names) => {
                        assert(names.take(0) =~= seq![]);
                        lemma_gathered(names, seq![], repository, contents);
                    },
                    Err(_) => {},
                },
                Err(_) => {},
            },
            Err(_) => {},
        }
    }
}

/// Texts in order with one more of them.
proof fn lemma_with(names: Seq<Seq<char>>, name: Seq<char>) -> (all: Seq<Seq<char>>)
    requires
        ascending(names),
    ensures
        ascending(all),
        forall|other: Seq<char>| #[trigger]
            all.contains(other) == (names.contains(other) || other == name),
    decreases names.len(),
{
    if names.contains(name) {
        names
    } else if names.len() == 0 || text::text_before(names.last(), name) {
        let all = names.push(name);
        assert forall|i: int, j: int| 0 <= i < j < all.len() implies text::text_before(
            #[trigger] all[i],
            #[trigger] all[j],
        ) by {
            if j == names.len() && i < names.len() - 1 {
                assert(text::text_before(names[i], names[names.len() - 1]));
                text::text_order_is_transitive(names[i], names.last(), name);
            }
        }
        assert forall|other: Seq<char>| #[trigger]
            all.contains(other) == (names.contains(other) || other == name) by {
            if names.contains(other) {
                let k = choose|k: int| 0 <= k < names.len() && names[k] == other;
                assert(all[k] == other);
            }
            assert(all[names.len() as int] == name);
        }
        all
    } else {
        let last = names.last();
        let before = names.drop_last();
        assert(names.contains(last)) by {
            assert(names[names.len() - 1] == last);
        }
        text::text_order_is_total(last, name);
        lemma_last_is_alone(names, name);
        let most = lemma_with(before, name);
        let all = most.push(last);
        assert forall|i: int, j: int| 0 <= i < j < all.len() implies text::text_before(
            #[trigger] all[i],
            #[trigger] all[j],
        ) by {
            if j == most.len() {
                assert(most.contains(most[i]));
                if most[i] != name {
                    let k = choose|k: int| 0 <= k < before.len() && before[k] == most[i];
                    assert(text::text_before(names[k], names[names.len() - 1]));
                }
            }
        }
        assert forall|other: Seq<char>| #[trigger]
            all.contains(other) == (names.contains(other) || other == name) by {
            lemma_last_is_alone(names, other);
            assert(most.contains(other) == (before.contains(other) || other == name));
            if most.contains(other) {
                let k = choose|k: int| 0 <= k < most.len() && most[k] == other;
                assert(all[k] == other);
            }
            assert(all[most.len() as int] == last);
            if all.contains(other) {
                let k = choose|k: int| 0 <= k < all.len() && all[k] == other;
                if k < most.len() {
                    assert(most[k] == other);
                }
            }
        }
        all
    }
}

/// The texts among the values of entries can be put in order.
proof fn lemma_listed(entries: Seq<(Seq<char>, JsonTree)>, k: int) -> (names: Seq<Seq<char>>)
    requires
        0 <= k <= entries.len(),
    ensures
        lists(names, entries.take(k)),
    decreases k,
{
    if k == 0 {
        let names = Seq::<Seq<char>>::empty();
        assert forall|name: Seq<char>| #[trigger]
            names.contains(name) == mentions(entries.take(0), name) by {}
        names
    } else {
        let before = lemma_listed(entries, k - 1);
        let names = if let JsonTree::Text(name) = entries[k - 1].1 {
            lemma_with(before, name)
        } else {
            before
        };
        assert forall|name: Seq<char>| #[trigger]
            names.contains(name) == mentions(entries.take(k), name) by {
            lemma_one_entry_more(entries, k - 1, name);
            assert(before.contains(name) == mentions(entries.take(k - 1), name));
        }
        names
    }
}

/// Where all files of a list are, or which is the first that cannot be had.
proof fn lemma_all_found<P>(names: Seq<Seq<char>>, repository: Repository<P>) -> (found: int)
    ensures
        0 <= found <= names.len(),
        forall|i: int| 0 <= i < found ==> repository(#[trigger] names[i]) is Ok,
        match all_found(names, repository) {
            Ok(paths) => {
                &&& found == names.len()
                &&& paths.len() == names.len()
                &&& forall|i: int|
                    0 <= i < names.len() ==> repository(#[trigger] names[i]) == Ok::<P, Seq<char>>(
                        paths[i],
                    )
            },
            Err(error) => {
                &&& found < names.len()
                &&& repository(names[found]) matches Err(reason) && error
                    == (ErrorModel::ModelRetrieval { file: names[found], reason })
            },
        },
    decreases names.len(),
{
    if names.len() == 0 {
        0
    } else {
        let before = names.drop_last();
        let found = lemma_all_found(before, repository);
        assert forall|i: int| 0 <= i < found implies repository(#[trigger] names[i]) is Ok by {
            assert(before[i] == names[i]);
        }
        if all_found(before, repository) is Ok {
            assert forall|i: int| 0 <= i < before.len() implies repository(#[trigger] names[i])
                == Ok::<P, Seq<char>>(all_found(before, repository)->Ok_0[i]) by {
                assert(before[i] == names[i]);
            }
            if repository(names.last()) is Ok {
                names.len() as int
            } else {
                before.len() as int
            }
        } else {
            assert(before[found] == names[found]);
            found
        }
    }
}

/// Where the search for the weights of a model ends. Where there is a single file with all of
/// them, it ends with that file. Otherwise it needs an index: that cannot be had, or not be
/// read, or is no document, or has no object with the files, and each of these is told; or
/// it names files. These are the texts among the values of the object, in the order of their
/// bytes and each once. Where all can be had, the search ends with where they are, in that
/// order, and otherwise with the first that cannot be had.
pub proof fn weights_are_found_where_they_are<P>(
    repository: Repository<P>,
    contents: Contents<P>,
)
    ensures
        ({
            let result = search_result(
                SearchModel::<P>::Single,
                ActionModel::<P>::Get("model.safetensors"@),
                repository,
                contents,
            );
            match (
                repository("model.safetensors"@),
                repository("model.safetensors.index.json"@),
            ) {
                (Ok(path), _) => result matches Ok(paths) && paths.len() == 1 && paths[0] == path,
                (Err(_), Err(reason)) => result == Err::<Seq<P>, ErrorModel>(
                    ErrorModel::ModelRetrieval {
                        file: "model.safetensors or model.safetensors.index.json"@,
                        reason,
                    },
                ),
                (Err(_), Ok(index)) => match contents(index) {
                    Err(reason) => result == Err::<Seq<P>, ErrorModel>(ErrorModel::Io(reason)),
                    Ok(bytes) => match json::json_text(bytes) {
                        Err(text) => result == Err::<Seq<P>, ErrorModel>(
                            ErrorModel::Other(
                                "Failed to parse model.safetensors.index.json: "@ + text,
                            ),
                        ),
                        Ok(tree) => match tree.at("weight_map"@) {
                            JsonTree::Object(entries) => exists|names: Seq<Seq<char>>, found: int|
                                #![trigger names.take(found)]
                                {
                                    &&& 0 <= found <= names.len()
                                    &&& forall|i: int, j: int|
                                        0 <= i < j < names.len() ==> text::text_before(
                                            #[trigger] names[i],
                                            #[trigger] names[j],
                                        )
                                    &&& forall|i: int|
                                        0 <= i < names.len() ==> exists|k: int|
                                            0 <= k < entries.len() && (#[trigger] entries[k]).1
                                                == JsonTree::Text(#[trigger] names[i])
                                    &&& forall|k: int|
                                        0 <= k < entries.len() ==> ((
                                        #[trigger] entries[k]).1 matches JsonTree::Text(name)
                                            ==> names.contains(name))
                                    &&& forall|i: int|
                                        0 <= i < found ==> repository(#[trigger] names[i]) is Ok
                                    &&& match result {
                                        Ok(paths) => {
                                            &&& found == names.len()
                                            &&& paths.len() == names.len()
                                            &&& forall|i: int|
                                                0 <= i < names.len() ==> repository(
                                                    #[trigger] names[i],
                                                ) == Ok::<P, Seq<char>>(paths[i])
                                        },
                                        Err(error) => {
                                            &&& found < names.len()
                                            &&& repository(names[found]) matches Err(reason)
                                                && error == (ErrorModel::ModelRetrieval {
                                                file: names[found],
                                                reason,
                                            })
                                        },
                                    }
                                },
                            _ => result == Err::<Seq<P>, ErrorModel>(
                                ErrorModel::Other(
                                    "model.safetensors.index.json has no `weight_map` object"@,
                                ),
                            ),
                        },
                    },
                },
            }
        }),
{
    search_finds_the_weights(repository, contents);
    if repository("model.safetensors"@) is Err {
        if let Ok(index) = repository("model.safetensors.index.json"@) {
            if let Ok(bytes) = contents(index) {
                if let Ok(tree) = json::json_text(bytes) {
                    if let JsonTree::Object(entries) = tree.at("weight_map"@) {
                        let some = lemma_listed(entries, entries.len() as int);
                        assert(entries.take(entries.len() as int) =~= entries);
                        assert(lists(some, entries));
                        let names = shards(entries);
                        assert(lists(names, entries));
                        let found = lemma_all_found(names, repository);
                        assert(names.take(found) == names.take(found));
                        assert forall|i: int| 0 <= i < names.len() implies exists|k: int|
                            0 <= k < entries.len() && (#[trigger] entries[k]).1 == JsonTree::Text(
                                #[trigger] names[i],
                            ) by {
                            assert(names.contains(names[i]));
                            assert(mentions(entries, names[i]));
                        }
                        assert forall|k: int| 0 <= k < entries.len() implies ((
                        #[trigger] entries[k]).1 matches JsonTree::Text(name) ==> names.contains(
                            name,
                        )) by {
                            if let JsonTree::Text(name) = entries[k].1 {
                                assert(mentions(entries, name));
                            }
                        }
                    }
                }
            }
        }
    }
}

/// The search starts with the file that holds all weights.
pub proof fn searches_start_with_the_single_file<P>(start: (WeightSearch<P>, WeightAction<P>))
    requires
        call_ensures(WeightSearch::<P>::begin, (), start),
    ensures
        start.0@ == SearchModel::<P>::Single,
        start.1@ == ActionModel::<P>::Get("model.safetensors"@),
{
}

/// A search waits for an answer to what it asked for: whether a file is here while it asked
/// for one, and what a file holds while it wants to read one. Once it is over, it waits for
/// nothing.
pub proof fn searches_wait_for_answers<P>(search: SearchModel<P>, event: EventModel<P>)
    ensures
        search.expects(event) <==> match search {
            SearchModel::Single => event is Found || event is NotFound,
            SearchModel::Index => event is Found || event is NotFound,
            SearchModel::Reading => event is Content || event is Unreadable,
            SearchModel::Shards { names, paths } => paths.len() < names.len() && (event is Found
                || event is NotFound),
            SearchModel::Ended => false,
        },
{
}

}
