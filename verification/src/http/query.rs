//! Query strings: `key=value` pairs joined by `&`, gathered by key.

use crate::search::{pieces, split_at_first};
use crate::text::{same_text, split, split_once, texts};
use vstd::prelude::*;
use vstd::std_specs::convert::FromSpecImpl;

verus! {

/// What a key of a query string was given: one value, or several in the
/// order in which they came.
#[derive(Debug)]
pub enum Value<'buf> {
    Single(&'buf str),
    Multiple(Vec<&'buf str>),
}

/// A `Value` as text.
pub enum ValueView {
    Single(Seq<char>),
    Multiple(Seq<Seq<char>>),
}

impl<'buf> View for Value<'buf> {
    type V = ValueView;

    open spec fn view(&self) -> ValueView {
        match self {
            Value::Single(value) => ValueView::Single(value@),
            Value::Multiple(values) => ValueView::Multiple(texts(values@)),
        }
    }
}

/// Key and value of one piece of a query string: the piece is cut at its first
/// `=`; one without `=` is a key with the empty value.
pub open spec fn pair(piece: Seq<char>) -> (Seq<char>, Seq<char>) {
    match split_at_first(piece, "="@) {
        Some(key_value) => key_value,
        None => (piece, ""@),
    }
}

/// The values that `pieces` give to `key`, in their order.
pub open spec fn values_of(pieces: Seq<Seq<char>>, key: Seq<char>) -> Seq<Seq<char>>
    decreases pieces.len(),
{
    if pieces.len() == 0 {
        Seq::empty()
    } else {
        let earlier = values_of(pieces.drop_last(), key);
        if pair(pieces.last()).0 == key {
            earlier.push(pair(pieces.last()).1)
        } else {
            earlier
        }
    }
}

/// How the values of one key are held: alone where there is one, as a list
/// where there are more.
pub open spec fn gathered(values: Seq<Seq<char>>) -> ValueView {
    if values.len() == 1 {
        ValueView::Single(values[0])
    } else {
        ValueView::Multiple(values)
    }
}

/// The mapping that a query string stands for: each key that occurs, with the
/// values it was given.
pub open spec fn query_map(fragment: Seq<char>) -> Map<Seq<char>, ValueView> {
    let parts = pieces(fragment, "&"@);
    Map::new(
        |key: Seq<char>| values_of(parts, key).len() > 0,
        |key: Seq<char>| gathered(values_of(parts, key)),
    )
}

#[derive(Debug)]
struct Entry<'buf> {
    key: &'buf str,
    value: Value<'buf>,
}

/// A parsed query string. Keys and values are slices of the text it was parsed
/// from.
#[derive(Debug)]
pub struct Query<'buf> {
    data: Vec<Entry<'buf>>,
}

spec fn distinct_keys(data: Seq<Entry>) -> bool {
    forall|i: int, j: int| 0 <= i < j < data.len() ==> data[i].key@ != data[j].key@
}

spec fn has_key(data: Seq<Entry>, key: Seq<char>) -> bool {
    exists|i: int| 0 <= i < data.len() && #[trigger] data[i].key@ == key
}

spec fn value_at(data: Seq<Entry>, key: Seq<char>) -> ValueView {
    data[choose|i: int| 0 <= i < data.len() && #[trigger] data[i].key@ == key].value@
}

/// Each entry holds all the values that `parts` give to its key, and each key
/// of `parts` has an entry.
spec fn gathers(data: Seq<Entry>, parts: Seq<Seq<char>>) -> bool {
    &&& distinct_keys(data)
    &&& forall|i: int|
        0 <= i < data.len() ==> values_of(parts, #[trigger] data[i].key@).len() > 0
            && data[i].value@ == gathered(values_of(parts, data[i].key@))
    &&& forall|key: Seq<char>| #[trigger]
        values_of(parts, key).len() > 0 ==> has_key(data, key)
}

impl<'buf> View for Query<'buf> {
    type V = Map<Seq<char>, ValueView>;

    closed spec fn view(&self) -> Map<Seq<char>, ValueView> {
        Map::new(
            |key: Seq<char>| has_key(self.data@, key),
            |key: Seq<char>| value_at(self.data@, key),
        )
    }
}

/// The index of the entry for `key`.
fn position(data: &Vec<Entry>, key: &str) -> (r: Option<usize>)
    ensures
        match r {
            Some(i) => i < data@.len() && data@[i as int].key@ == key@,
            None => !has_key(data@, key@),
        },
{
    let mut i: usize = 0;
    while i < data.len()
        invariant
            0 <= i <= data@.len(),
            forall|j: int| 0 <= j < i ==> data@[j].key@ != key@,
        decreases data@.len() - i,
    {
        if same_text(data[i].key, key) {
            return Some(i);
        }
        i += 1;
    }
    None
}

/// Adds one more value for `key`: a key that is new gets it alone, a key that
/// has one value gets a list of two, a key that has a list gets it at the end.
fn record<'buf>(
    data: &mut Vec<Entry<'buf>>,
    key: &'buf str,
    value: &'buf str,
    Ghost(parts): Ghost<Seq<Seq<char>>>,
    Ghost(piece): Ghost<Seq<char>>,
)
    requires
        gathers(old(data)@, parts),
        pair(piece) == (key@, value@),
    ensures
        gathers(final(data)@, parts.push(piece)),
{
    let ghost before = data@;
    let ghost after = parts.push(piece);
    proof {
        assert(after.drop_last() =~= parts);
        assert forall|other: Seq<char>| other != key@ implies #[trigger] values_of(after, other)
            == values_of(parts, other) by {}
        assert(values_of(after, key@) == values_of(parts, key@).push(value@));
    }
    match position(data, key) {
        None => {
            data.push(Entry { key, value: Value::Single(value) });
            proof {
                assert(values_of(parts, key@).len() == 0);
                assert forall|i: int| 0 <= i < data@.len() implies values_of(
                    after,
                    #[trigger] data@[i].key@,
                ).len() > 0 && data@[i].value@ == gathered(values_of(after, data@[i].key@)) by {
                    if i < before.len() {
                        assert(data@[i] == before[i]);
                        assert(has_key(before, before[i].key@));
                    }
                }
                assert forall|other: Seq<char>| #[trigger]
                    values_of(after, other).len() > 0 implies has_key(data@, other) by {
                    if other == key@ {
                        assert(data@[before.len() as int].key@ == other);
                    } else {
                        let i = choose|i: int| 0 <= i < before.len() && #[trigger] before[i].key@ == other;
                        assert(data@[i].key@ == other);
                    }
                }
            }
        },
        Some(i) => {
            let entry = data.remove(i);
            let grown = match entry.value {
                Value::Single(first) => {
                    let mut values: Vec<&'buf str> = Vec::new();
                    values.push(first);
                    values.push(value);
                    values
                },
                Value::Multiple(mut values) => {
                    values.push(value);
                    values
                },
            };
            proof {
                let had = values_of(parts, key@);
                assert(before[i as int].value@ == gathered(had));
                assert(texts(grown@) =~= had.push(value@));
            }
            data.insert(i, Entry { key: entry.key, value: Value::Multiple(grown) });
            proof {
                assert(data@.len() == before.len());
                assert forall|j: int| 0 <= j < data@.len() implies #[trigger] data@[j].key@ == before[j].key@ by {}
                assert forall|j: int| 0 <= j < data@.len() && j != i implies #[trigger] data@[j] == before[j] by {}
                assert forall|other: Seq<char>| #[trigger]
                    values_of(after, other).len() > 0 implies has_key(data@, other) by {
                    if other == key@ {
                        assert(data@[i as int].key@ == other);
                    } else {
                        let j = choose|j: int| 0 <= j < before.len() && #[trigger] before[j].key@ == other;
                        assert(data@[j].key@ == other);
                    }
                }
            }
        },
    }
}

impl<'buf> Query<'buf> {
    #[verifier::type_invariant]
    spec fn well_formed(self) -> bool {
        distinct_keys(self.data@)
    }

    /// Reads a query string: the text after the `?` of a request target.
    /// Nothing is rejected: a piece without `=` is a key with the empty value,
    /// and a second `=` belongs to the value.
    pub fn parse(fragment: &'buf str) -> (query: Query<'buf>)
        ensures
            query@ == query_map(fragment@),
    {
        let parts = split(fragment, "&");
        let mut data: Vec<Entry<'buf>> = Vec::new();
        let mut n: usize = 0;
        while n < parts.len()
            invariant
                0 <= n <= parts@.len(),
                gathers(data@, texts(parts@).take(n as int)),
            decreases parts@.len() - n,
        {
            let piece = parts[n];
            let (key, value) = match split_once(piece, "=") {
                Some((key, value)) => (key, value),
                None => (piece, ""),
            };
            record(&mut data, key, value, Ghost(texts(parts@).take(n as int)), Ghost(piece@));
            proof {
                assert(texts(parts@).take(n as int).push(piece@) =~= texts(parts@).take(n + 1));
            }
            n += 1;
        }
        let query = Query { data };
        proof {
            let all = pieces(fragment@, "&"@);
            assert(texts(parts@).take(n as int) =~= all);
            assert forall|key: Seq<char>| has_key(data@, key) implies values_of(all, key).len() > 0
                && value_at(data@, key) == gathered(values_of(all, key)) by {
                let i = choose|i: int| 0 <= i < data@.len() && #[trigger] data@[i].key@ == key;
                assert(data@[i].key@ == key);
            }
            assert(query@ =~= query_map(fragment@));
        }
        query
    }

    /// What `key` was given, if it occurs.
    pub fn get(&self, key: &str) -> (r: Option<&Value<'buf>>)
        ensures
            match r {
                Some(value) => self@.contains_key(key@) && self@[key@] == value@,
                None => !self@.contains_key(key@),
            },
    {
        proof {
            use_type_invariant(self);
        }
        match position(&self.data, key) {
            Some(i) => {
                proof {
                    assert(has_key(self.data@, key@));
                    let j = choose|j: int| 0 <= j < self.data@.len() && #[trigger] self.data@[j].key@ == key@;
                    assert(j == i);
                }
                Some(&self.data[i].value)
            },
            None => None,
        }
    }
}

impl<'buf> From<&'buf str> for Query<'buf> {
    /// Reads a query string, as `Query::parse` does.
    fn from(fragment: &'buf str) -> (query: Query<'buf>)
        ensures
            query@ == query_map(fragment@),
    {
        Query::parse(fragment)
    }
}

/// A query is known by its view, and no spec function builds one: what `from`
/// returns is stated in its own contract, above.
impl<'buf> FromSpecImpl<&'buf str> for Query<'buf> {
    open spec fn obeys_from_spec() -> bool {
        false
    }

    open spec fn from_spec(fragment: &'buf str) -> Query<'buf> {
        arbitrary()
    }
}

} // verus!
