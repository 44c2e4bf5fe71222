//! Comparing and cutting string slices. The contracts speak of characters; the
//! code works on the bytes and never copies.

use crate::encoding::{
    lemma_byte_offset_increases, lemma_occurrence_in_bytes, lemma_occurrence_in_text,
};
use crate::search::{
    find, lemma_first_occurrence, lemma_first_occurrence_is, lemma_no_occurrence, matches_at,
    occurs_at, pieces, split_at_first, without_prefix,
};
use vstd::prelude::*;
use vstd::string::*;
use vstd::utf8::*;

verus! {

/// The texts that a sequence of string slices holds.
pub open spec fn texts(slices: Seq<&str>) -> Seq<Seq<char>> {
    Seq::new(slices.len(), |i: int| slices[i]@)
}

/// Whether two string slices hold the same text.
pub fn same_text(a: &str, b: &str) -> (r: bool)
    ensures
        r == (a@ == b@),
{
    let x = a.as_bytes();
    let y = b.as_bytes();
    proof {
        encode_utf8_decode_utf8(a@);
        encode_utf8_decode_utf8(b@);
    }
    if x.len() != y.len() {
        return false;
    }
    let same = matches_at(x, y, 0);
    proof {
        assert(x@.subrange(0, x@.len() as int) =~= x@);
    }
    same
}

/// Cuts `text` at the first occurrence of `pat`, into what stands before it and
/// what stands after it.
pub fn split_once<'a>(text: &'a str, pat: &str) -> (r: Option<(&'a str, &'a str)>)
    ensures
        match r {
            Some((head, tail)) => split_at_first(text@, pat@) == Some((head@, tail@)),
            None => split_at_first(text@, pat@) is None,
        },
{
    let ghost bytes = text.spec_bytes();
    let ghost code = pat.spec_bytes();
    let needle = pat.as_bytes();
    match find(text.as_bytes(), needle) {
        None => {
            proof {
                lemma_first_occurrence(bytes, code);
                assert forall|k: int| !occurs_at(text@, pat@, k) by {
                    if occurs_at(text@, pat@, k) {
                        lemma_occurrence_in_bytes(text@, pat@, k);
                    }
                }
                lemma_no_occurrence(text@, pat@);
            }
            None
        },
        Some(i) => {
            proof {
                lemma_first_occurrence(bytes, code);
                if pat@.len() == 0 {
                    assert(code.len() == 0);
                    assert(bytes.subrange(0, 0) =~= code);
                    assert(occurs_at(bytes, code, 0));
                }
                let k = lemma_occurrence_in_text(text@, pat@, i as int);
                assert forall|j: int| 0 <= j < k implies !occurs_at(text@, pat@, j) by {
                    if occurs_at(text@, pat@, j) {
                        lemma_occurrence_in_bytes(text@, pat@, j);
                        lemma_byte_offset_increases(text@, j, k);
                    }
                }
                lemma_first_occurrence_is(text@, pat@, k);
                encode_utf8_decode_utf8(text@.subrange(0, k));
                encode_utf8_decode_utf8(text@.subrange(k + pat@.len(), text@.len() as int));
            }
            let (head, rest) = text.split_at(i);
            let (_, tail) = rest.split_at(needle.len());
            proof {
                encode_utf8_decode_utf8(head@);
                encode_utf8_decode_utf8(tail@);
                assert(tail.spec_bytes() =~= bytes.subrange(i + code.len(), bytes.len() as int));
            }
            Some((head, tail))
        },
    }
}

/// Cuts `text` at every occurrence of `pat`, from left to right. An empty
/// `pat` cuts nowhere.
pub fn split<'a>(text: &'a str, pat: &str) -> (r: Vec<&'a str>)
    ensures
        texts(r@) == pieces(text@, pat@),
{
    let mut out: Vec<&'a str> = Vec::new();
    if pat.is_empty() {
        out.push(text);
        proof {
            assert(texts(out@) =~= seq![text@]);
        }
        return out;
    }
    let mut rest = text;
    loop
        invariant_except_break
            pat@.len() > 0,
            pieces(text@, pat@) == texts(out@) + pieces(rest@, pat@),
        ensures
            texts(out@) == pieces(text@, pat@),
        decreases rest@.len(),
    {
        let ghost before = texts(out@);
        proof {
            lemma_first_occurrence(rest@, pat@);
        }
        match split_once(rest, pat) {
            Some((head, tail)) => {
                out.push(head);
                proof {
                    assert(texts(out@) =~= before + seq![head@]);
                    assert(before + (seq![head@] + pieces(tail@, pat@)) =~= (before + seq![head@])
                        + pieces(tail@, pat@));
                }
                rest = tail;
            },
            None => {
                out.push(rest);
                proof {
                    assert(texts(out@) =~= before + seq![rest@]);
                }
                break;
            },
        }
    }
    out
}

/// Takes `pat` from the start of `text`, where `text` starts with it.
pub fn strip_prefix<'a>(text: &'a str, pat: &str) -> (r: Option<&'a str>)
    ensures
        match r {
            Some(tail) => without_prefix(text@, pat@) == Some(tail@),
            None => without_prefix(text@, pat@) is None,
        },
{
    let bytes = text.as_bytes();
    let needle = pat.as_bytes();
    if needle.len() <= bytes.len() && matches_at(bytes, needle, 0) {
        proof {
            let k = lemma_occurrence_in_text(text@, pat@, 0);
            if k > 0 {
                lemma_byte_offset_increases(text@, 0, k);
            }
            assert(bytes@.subrange(0, bytes@.len() as int) =~= bytes@);
            encode_utf8_decode_utf8(text@.subrange(pat@.len() as int, text@.len() as int));
        }
        let (_, tail) = text.split_at(needle.len());
        proof {
            encode_utf8_decode_utf8(tail@);
        }
        Some(tail)
    } else {
        proof {
            if occurs_at(text@, pat@, 0) {
                lemma_occurrence_in_bytes(text@, pat@, 0);
                assert(text@.subrange(0, 0) =~= Seq::<char>::empty());
            }
        }
        None
    }
}

} // verus!
