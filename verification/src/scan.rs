//! Boundary scanning: locating a record-closing marker in a byte buffer.
//!
//! The partitioner cuts the dump immediately after an occurrence of the
//! marker.  The scanner reports the first occurrence at or after a given
//! offset; because every candidate position is examined, an occurrence that
//! straddles any read-window edge is still found, and the contract below pins
//! that down.

use vstd::prelude::*;

verus! {

/// `marker` occurs in `data` starting at index `i`.
pub open spec fn match_at(data: Seq<u8>, marker: Seq<u8>, i: int) -> bool {
    &&& 0 <= i
    &&& i + marker.len() <= data.len()
    &&& forall|j: int| 0 <= j < marker.len() ==> data[i + j] == marker[j]
}

/// `marker` occurs nowhere in `data` at a start index in `[lo, hi)`.
pub open spec fn no_match_in(data: Seq<u8>, marker: Seq<u8>, lo: int, hi: int) -> bool {
    forall|i: int| lo <= i < hi ==> !match_at(data, marker, i)
}

/// The first index at or after `from` where `marker` occurs in `data`.
pub open spec fn first_match_from(data: Seq<u8>, marker: Seq<u8>, from: int) -> Option<int>
    decreases data.len() - from,
{
    if from < 0 || from + marker.len() > data.len() {
        None
    } else if match_at(data, marker, from) {
        Some(from)
    } else {
        first_match_from(data, marker, from + 1)
    }
}

/// Scanning may start anywhere in a match-free stretch without changing the
/// first occurrence that is found.
pub proof fn lemma_first_match_from_shift(data: Seq<u8>, marker: Seq<u8>, from: int, upto: int)
    requires
        0 <= from <= upto,
        no_match_in(data, marker, from, upto),
    ensures
        first_match_from(data, marker, from) == first_match_from(data, marker, upto),
    decreases upto - from,
{
    if from < upto {
        if from + marker.len() > data.len() {
            assert(first_match_from(data, marker, from) is None);
            assert(upto + marker.len() > data.len());
            assert(first_match_from(data, marker, upto) is None);
        } else {
            assert(!match_at(data, marker, from));
            lemma_first_match_from_shift(data, marker, from + 1, upto);
        }
    }
}

/// What `first_match_from` returns: the match it names, and the absence of any
/// earlier one.
pub proof fn lemma_first_match_from_props(data: Seq<u8>, marker: Seq<u8>, from: int)
    requires
        0 <= from,
    ensures
        match first_match_from(data, marker, from) {
            Some(i) => from <= i && match_at(data, marker, i) && no_match_in(
                data,
                marker,
                from,
                i,
            ),
            None => no_match_in(data, marker, from, data.len() as int),
        },
    decreases data.len() - from,
{
    if from + marker.len() > data.len() {
        assert forall|i: int| from <= i < data.len() implies !match_at(data, marker, i) by {
            assert(i + marker.len() > data.len());
        }
    } else if match_at(data, marker, from) {
    } else {
        lemma_first_match_from_props(data, marker, from + 1);
    }
}

fn is_match_at(data: &Vec<u8>, marker: &Vec<u8>, i: usize) -> (r: bool)
    requires
        i + marker.len() <= data.len(),
    ensures
        r == match_at(data@, marker@, i as int),
{
    let mut j: usize = 0;
    while j < marker.len()
        invariant
            i + marker.len() <= data.len(),
            j <= marker.len(),
            forall|k: int| 0 <= k < j ==> data@[i + k] == marker@[k],
        decreases marker.len() - j,
    {
        if data[i + j] != marker[j] {
            return false;
        }
        j += 1;
    }
    true
}

/// Returns the offset immediately after the first occurrence of `marker` at
/// or after `from`, or `None` when no occurrence starts at or after `from`.
pub fn find_after(data: &Vec<u8>, marker: &Vec<u8>, from: usize) -> (r: Option<usize>)
    requires
        marker.len() >= 1,
    ensures
        match r {
            Some(end) => {
                &&& marker.len() <= end <= data.len()
                &&& from + marker.len() <= end
                &&& match_at(data@, marker@, end - marker.len())
                &&& no_match_in(data@, marker@, from as int, end - marker.len())
                &&& first_match_from(data@, marker@, from as int) == Some(
                    end - marker.len() as int,
                )
            },
            None => {
                &&& no_match_in(data@, marker@, from as int, data@.len() as int)
                &&& first_match_from(data@, marker@, from as int) is None
            },
        },
{
    let n = data.len();
    let m = marker.len();
    if m > n || from > n - m {
        proof {
            assert forall|i: int| from <= i < data@.len() implies !match_at(
                data@,
                marker@,
                i,
            ) by {
                assert(i + marker@.len() > data@.len());
            }
        }
        return None;
    }
    let mut i: usize = from;
    while i <= n - m
        invariant
            1 <= m <= n,
            n == data@.len(),
            m == marker@.len(),
            from <= i <= n - m + 1,
            no_match_in(data@, marker@, from as int, i as int),
        decreases n - i,
    {
        if is_match_at(data, marker, i) {
            proof {
                lemma_first_match_from_shift(data@, marker@, from as int, i as int);
            }
            return Some(i + m);
        }
        i += 1;
    }
    proof {
        lemma_first_match_from_shift(data@, marker@, from as int, i as int);
        assert forall|k: int| from <= k < data@.len() implies !match_at(data@, marker@, k) by {
            if k >= i {
                assert(k + marker@.len() > data@.len());
            }
        }
    }
    None
}

} // verus!
