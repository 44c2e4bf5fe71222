//! The header fields of a request: names with their values, one value per
//! name.

use crate::search::{lemma_first_occurrence, split_at_first};
use crate::text::{same_text, split_once};
use vstd::prelude::*;

verus! {

/// Name and value of one header line: what stands before and after its first
/// colon-and-blank. A line without one is no header line.
pub open spec fn header_of(line: Seq<char>) -> Option<(Seq<char>, Seq<char>)> {
    split_at_first(line, ": "@)
}

/// The mapping that header lines stand for, where each of them is a header
/// line: a name that comes again takes the later value.
pub open spec fn header_map(lines: Seq<Seq<char>>) -> Option<Map<Seq<char>, Seq<char>>>
    decreases lines.len(),
{
    if lines.len() == 0 {
        Some(Map::empty())
    } else {
        match (header_map(lines.drop_last()), header_of(lines.last())) {
            (Some(earlier), Some((name, value))) => Some(earlier.insert(name, value)),
            _ => None,
        }
    }
}

/// The header lines of a block: the lines that end in a carriage return and a
/// line feed, up to the first empty line or to the end of the block. What
/// stands after the last line end is a line too, unless it is empty.
pub open spec fn header_lines(block: Seq<char>) -> Seq<Seq<char>>
    decreases block.len(),
    via header_lines_decreases
{
    match split_at_first(block, "\r\n"@) {
        Some((line, rest)) => if line.len() == 0 {
            Seq::empty()
        } else {
            seq![line] + header_lines(rest)
        },
        None => if block.len() == 0 {
            Seq::empty()
        } else {
            seq![block]
        },
    }
}

#[via_fn]
proof fn header_lines_decreases(block: Seq<char>) {
    reveal_strlit("\r\n");
    lemma_first_occurrence(block, "\r\n"@);
}

/// The header fields that a block holds, or `None` where one of its header
/// lines is no header line.
pub open spec fn headers_of(block: Seq<char>) -> Option<Map<Seq<char>, Seq<char>>> {
    header_map(header_lines(block))
}

proof fn lemma_header_map_extends(lines: Seq<Seq<char>>, more: Seq<Seq<char>>)
    requires
        header_map(lines) is None,
    ensures
        header_map(lines + more) is None,
    decreases more.len(),
{
    if more.len() == 0 {
        assert(lines + more =~= lines);
    } else {
        lemma_header_map_extends(lines, more.drop_last());
        assert((lines + more).drop_last() =~= lines + more.drop_last());
    }
}

/// Header fields, as slices of the buffer they were read from. Names are kept
/// as written: `Host` and `host` are two names.
#[derive(Debug)]
pub struct Headers<'buf> {
    fields: Vec<(&'buf str, &'buf str)>,
}

spec fn distinct_names(fields: Seq<(&str, &str)>) -> bool {
    forall|i: int, j: int| 0 <= i < j < fields.len() ==> fields[i].0@ != fields[j].0@
}

spec fn has_name(fields: Seq<(&str, &str)>, name: Seq<char>) -> bool {
    exists|i: int| 0 <= i < fields.len() && #[trigger] fields[i].0@ == name
}

spec fn value_of(fields: Seq<(&str, &str)>, name: Seq<char>) -> Seq<char> {
    fields[choose|i: int| 0 <= i < fields.len() && #[trigger] fields[i].0@ == name].1@
}

spec fn mapping(fields: Seq<(&str, &str)>) -> Map<Seq<char>, Seq<char>> {
    Map::new(|name: Seq<char>| has_name(fields, name), |name: Seq<char>| value_of(fields, name))
}

proof fn lemma_mapping_len(fields: Seq<(&str, &str)>)
    requires
        distinct_names(fields),
    ensures
        mapping(fields).dom().finite(),
        mapping(fields).len() == fields.len(),
    decreases fields.len(),
{
    if fields.len() == 0 {
        assert(mapping(fields).dom() =~= Set::empty());
    } else {
        let earlier = fields.drop_last();
        let name = fields.last().0@;
        lemma_mapping_len(earlier);
        assert(!has_name(earlier, name)) by {
            if has_name(earlier, name) {
                let i = choose|i: int| 0 <= i < earlier.len() && #[trigger] earlier[i].0@ == name;
                assert(fields[i].0@ == fields[fields.len() - 1].0@);
            }
        }
        assert forall|other: Seq<char>| has_name(fields, other) <==> (other == name || has_name(
            earlier,
            other,
        )) by {
            if has_name(fields, other) {
                let i = choose|i: int| 0 <= i < fields.len() && #[trigger] fields[i].0@ == other;
                if i < earlier.len() {
                    assert(earlier[i].0@ == other);
                }
            }
            if has_name(earlier, other) {
                let i = choose|i: int| 0 <= i < earlier.len() && #[trigger] earlier[i].0@ == other;
                assert(fields[i].0@ == other);
            }
            if other == name {
                assert(fields[fields.len() - 1].0@ == other);
            }
        }
        assert(mapping(fields).dom() =~= mapping(earlier).dom().insert(name));
    }
}

/// The index of the field `name`.
fn position(fields: &Vec<(&str, &str)>, name: &str) -> (r: Option<usize>)
    ensures
        match r {
            Some(i) => i < fields@.len() && fields@[i as int].0@ == name@,
            None => !has_name(fields@, name@),
        },
{
    let mut i: usize = 0;
    while i < fields.len()
        invariant
            0 <= i <= fields@.len(),
            forall|j: int| 0 <= j < i ==> fields@[j].0@ != name@,
        decreases fields@.len() - i,
    {
        if same_text(fields[i].0, name) {
            return Some(i);
        }
        i += 1;
    }
    None
}

/// Gives `name` the value `value`, in place of the one it had.
fn put<'buf>(fields: &mut Vec<(&'buf str, &'buf str)>, name: &'buf str, value: &'buf str)
    requires
        distinct_names(old(fields)@),
    ensures
        distinct_names(final(fields)@),
        mapping(final(fields)@) == mapping(old(fields)@).insert(name@, value@),
{
    let ghost before = fields@;
    match position(fields, name) {
        Some(i) => {
            fields.set(i, (name, value));
        },
        None => {
            fields.push((name, value));
        },
    }
    proof {
        let after = fields@;
        let at = if has_name(before, name@) {
            choose|i: int| 0 <= i < before.len() && #[trigger] before[i].0@ == name@
        } else {
            before.len() as int
        };
        assert(after[at].0@ == name@ && after[at].1@ == value@);
        assert forall|j: int| 0 <= j < after.len() implies #[trigger] after[j].0@ == (if j == at {
            name@
        } else {
            before[j].0@
        }) by {}
        assert forall|other: Seq<char>| has_name(after, other) <==> (other == name@ || has_name(
            before,
            other,
        )) by {
            if has_name(after, other) {
                let j = choose|j: int| 0 <= j < after.len() && #[trigger] after[j].0@ == other;
                if j != at {
                    assert(before[j].0@ == other);
                }
            }
            if has_name(before, other) {
                let j = choose|j: int| 0 <= j < before.len() && #[trigger] before[j].0@ == other;
                assert(after[j].0@ == other);
            }
        }
        assert forall|other: Seq<char>| has_name(after, other) implies value_of(after, other) == (
        if other == name@ {
            value@
        } else {
            value_of(before, other)
        }) by {
            let j = choose|j: int| 0 <= j < after.len() && #[trigger] after[j].0@ == other;
            if other != name@ {
                let k = choose|k: int| 0 <= k < before.len() && #[trigger] before[k].0@ == other;
                assert(after[k].0@ == other);
                assert(j == k);
            } else {
                assert(j == at);
            }
        }
        assert(mapping(after) =~= mapping(before).insert(name@, value@));
    }
}

impl<'buf> View for Headers<'buf> {
    type V = Map<Seq<char>, Seq<char>>;

    closed spec fn view(&self) -> Map<Seq<char>, Seq<char>> {
        mapping(self.fields@)
    }
}

impl<'buf> Headers<'buf> {
    #[verifier::type_invariant]
    spec fn well_formed(self) -> bool {
        distinct_names(self.fields@)
    }

    /// The value of the field `name`.
    pub fn get(&self, name: &str) -> (r: Option<&'buf str>)
        ensures
            match r {
                Some(value) => self@.contains_key(name@) && self@[name@] == value@,
                None => !self@.contains_key(name@),
            },
    {
        proof {
            use_type_invariant(self);
        }
        match position(&self.fields, name) {
            Some(i) => {
                proof {
                    let j = choose|j: int|
                        0 <= j < self.fields@.len() && #[trigger] self.fields@[j].0@ == name@;
                    assert(j == i);
                }
                Some(self.fields[i].1)
            },
            None => None,
        }
    }

    /// All the fields, each name once with its value, in no stated order.
    pub fn fields(&self) -> (r: Vec<(&'buf str, &'buf str)>)
        ensures
            r@.len() == self@.len(),
            forall|i: int|
                0 <= i < r@.len() ==> self@.contains_key(#[trigger] r@[i].0@) && self@[r@[i].0@]
                    == r@[i].1@,
            forall|i: int, j: int| 0 <= i < j < r@.len() ==> r@[i].0@ != r@[j].0@,
            forall|name: Seq<char>| #[trigger]
                self@.contains_key(name) ==> exists|i: int|
                    0 <= i < r@.len() && #[trigger] r@[i].0@ == name,
    {
        proof {
            use_type_invariant(self);
            lemma_mapping_len(self.fields@);
        }
        let mut out: Vec<(&'buf str, &'buf str)> = Vec::new();
        let mut n: usize = 0;
        while n < self.fields.len()
            invariant
                0 <= n <= self.fields@.len(),
                out@ == self.fields@.take(n as int),
            decreases self.fields@.len() - n,
        {
            out.push(self.fields[n]);
            proof {
                assert(out@ =~= self.fields@.take(n + 1));
            }
            n += 1;
        }
        proof {
            assert(out@ =~= self.fields@);
            assert forall|i: int| 0 <= i < out@.len() implies self@.contains_key(
                #[trigger] out@[i].0@,
            ) && self@[out@[i].0@] == out@[i].1@ by {
                let name = out@[i].0@;
                assert(has_name(self.fields@, name));
                let j = choose|j: int|
                    0 <= j < self.fields@.len() && #[trigger] self.fields@[j].0@ == name;
                assert(j == i);
            }
        }
        out
    }

    /// How many fields there are.
    pub fn len(&self) -> (n: usize)
        ensures
            self@.dom().finite(),
            n == self@.len(),
    {
        proof {
            use_type_invariant(self);
            lemma_mapping_len(self.fields@);
        }
        self.fields.len()
    }

    /// Whether there is no field.
    pub fn is_empty(&self) -> (r: bool)
        ensures
            r == (self@ == Map::<Seq<char>, Seq<char>>::empty()),
    {
        proof {
            use_type_invariant(self);
            if self.fields@.len() > 0 {
                assert(has_name(self.fields@, self.fields@[0].0@));
                assert(self@.contains_key(self.fields@[0].0@));
            } else {
                assert(self@ =~= Map::<Seq<char>, Seq<char>>::empty());
            }
        }
        self.fields.len() == 0
    }
}

/// Reads the header fields of a block, line by line, up to its first empty
/// line. A line without a colon and a blank after its name is an error, and
/// then nothing is returned.
pub fn parse_headers<'buf>(block: &'buf str) -> (r: Option<Headers<'buf>>)
    ensures
        match r {
            Some(headers) => headers_of(block@) == Some(headers@),
            None => headers_of(block@) is None,
        },
{
    let mut fields: Vec<(&'buf str, &'buf str)> = Vec::new();
    let mut rest = block;
    let ghost mut done: Seq<Seq<char>> = Seq::empty();
    proof {
        assert(mapping(fields@) =~= Map::<Seq<char>, Seq<char>>::empty());
        assert(done + header_lines(rest@) =~= header_lines(rest@));
    }
    loop
        invariant
            header_lines(block@) == done + header_lines(rest@),
            distinct_names(fields@),
            header_map(done) == Some(mapping(fields@)),
        decreases rest@.len(),
    {
        proof {
            reveal_strlit("\r\n");
            lemma_first_occurrence(rest@, "\r\n"@);
        }
        let (line, more) = match split_once(rest, "\r\n") {
            Some((line, tail)) => (line, Some(tail)),
            None => (rest, None),
        };
        if line.is_empty() {
            proof {
                assert(done + header_lines(rest@) =~= done);
            }
            return Some(Headers { fields });
        }
        let ghost lines = done.push(line@);
        proof {
            assert(lines.drop_last() =~= done);
        }
        match split_once(line, ": ") {
            Some((name, value)) => {
                put(&mut fields, name, value);
            },
            None => {
                proof {
                    let later = header_lines(rest@).subrange(1, header_lines(rest@).len() as int);
                    assert(header_lines(block@) =~= lines + later);
                    lemma_header_map_extends(lines, later);
                }
                return None;
            },
        }
        match more {
            Some(tail) => {
                proof {
                    assert(done + (seq![line@] + header_lines(tail@)) =~= lines + header_lines(
                        tail@,
                    ));
                    done = lines;
                }
                rest = tail;
            },
            None => {
                proof {
                    assert(done + seq![line@] =~= lines);
                }
                return Some(Headers { fields });
            },
        }
    }
}

} // verus!
