//! Partitioning: cutting the dump into contiguous, record-aligned shards.
//!
//! Cut points are chosen by scanning forward from each ideal (evenly spaced)
//! offset to the end of the next record-closing marker, so every shard but
//! the last ends with the marker, and the final shard ends exactly at the end
//! of the dump.

use vstd::prelude::*;

use crate::scan::find_after;
use crate::scan::first_match_from;
use crate::scan::lemma_first_match_from_props;
use crate::scan::match_at;

verus! {

/// Why partitioning failed: a cut point's forward scan reached the end of the
/// dump without seeing the marker.
#[derive(Clone, Copy, Debug, PartialEq, Eq, Structural)]
pub enum PartitionError {
    BoundaryNotFound,
}

/// The cut points that follow `last`, when `remaining` shards are still to be
/// produced: one point per shard, each the end of the marker occurrence first
/// found at or after the shard's ideal offset, the last one the dump's end.
pub open spec fn split_points_from(
    data: Seq<u8>,
    marker: Seq<u8>,
    chunk: int,
    last: int,
    remaining: nat,
) -> Option<Seq<int>>
    decreases remaining,
{
    if remaining <= 1 {
        Some(seq![data.len() as int])
    } else {
        match first_match_from(data, marker, last + chunk) {
            None => None,
            Some(i) => match split_points_from(
                data,
                marker,
                chunk,
                i + marker.len(),
                (remaining - 1) as nat,
            ) {
                None => None,
                Some(rest) => Some(seq![i + marker.len() as int] + rest),
            },
        }
    }
}

/// All cut points of an `n`-way partition: 0, the record-aligned interior
/// boundaries, and the dump's end.  `None` when some forward scan fails.
pub open spec fn split_points(data: Seq<u8>, marker: Seq<u8>, n: nat) -> Option<Seq<int>> {
    if n < 1 {
        None
    } else {
        match split_points_from(data, marker, data.len() as int / n as int, 0, n) {
            None => None,
            Some(rest) => Some(seq![0int] + rest),
        }
    }
}

proof fn lemma_split_points_from_props(
    data: Seq<u8>,
    marker: Seq<u8>,
    chunk: int,
    last: int,
    remaining: nat,
)
    requires
        remaining >= 1,
        0 <= last <= data.len(),
        0 <= chunk,
        marker.len() >= 1,
    ensures
        match split_points_from(data, marker, chunk, last, remaining) {
            Some(b) => {
                &&& b.len() == remaining
                &&& b[b.len() - 1] == data.len()
                &&& forall|k: int| 0 <= k < b.len() ==> last <= #[trigger] b[k] <= data.len()
                &&& forall|k: int| 0 <= k < b.len() - 1 ==> #[trigger] b[k] <= b[k + 1]
                &&& forall|k: int|
                    0 <= k < b.len() - 1 ==> marker.len() <= #[trigger] b[k] && match_at(
                        data,
                        marker,
                        b[k] - marker.len(),
                    )
                &&& forall|k: int| 1 <= k < b.len() - 1 ==> #[trigger] b[k - 1] <= b[k]
                    - marker.len()
                &&& remaining >= 2 ==> last <= b[0] - marker.len()
            },
            None => true,
        },
    decreases remaining,
{
    if remaining <= 1 {
    } else {
        match first_match_from(data, marker, last + chunk) {
            None => {},
            Some(i) => {
                lemma_first_match_from_props(data, marker, last + chunk);
                let next = i + marker.len();
                match split_points_from(data, marker, chunk, next, (remaining - 1) as nat) {
                    None => {},
                    Some(rest) => {
                        lemma_split_points_from_props(
                            data,
                            marker,
                            chunk,
                            next,
                            (remaining - 1) as nat,
                        );
                        let b = seq![next as int] + rest;
                        assert(b[0] == next);
                        assert forall|k: int| 0 <= k < b.len() implies last <= #[trigger] b[k]
                            <= data.len() by {
                            if k >= 1 {
                                assert(b[k] == rest[k - 1]);
                            }
                        }
                        assert forall|k: int| 0 <= k < b.len() - 1 implies #[trigger] b[k] <= b[k
                            + 1] by {
                            if k >= 1 {
                                assert(b[k] == rest[k - 1]);
                                assert(b[k + 1] == rest[k]);
                            } else {
                                assert(b[1] == rest[0]);
                            }
                        }
                        assert forall|k: int| 0 <= k < b.len() - 1 implies marker.len()
                            <= #[trigger] b[k] && match_at(data, marker, b[k] - marker.len()) by {
                            if k >= 1 {
                                assert(b[k] == rest[k - 1]);
                            }
                        }
                        assert forall|k: int| 1 <= k < b.len() - 1 implies #[trigger] b[k - 1]
                            <= b[k] - marker.len() by {
                            assert(b[k] == rest[k - 1]);
                            if k >= 2 {
                                assert(b[k - 1] == rest[k - 2]);
                            } else {
                                assert(b[0] == next);
                                assert(rest.len() >= 2);
                            }
                        }
                    },
                }
            },
        }
    }
}

/// What the cut points of a successful partition look like: they start at 0,
/// end at the dump's end, never decrease, and each interior point sits
/// immediately after a marker occurrence that lies wholly inside its shard.
pub proof fn lemma_split_points_props(data: Seq<u8>, marker: Seq<u8>, n: nat)
    requires
        n >= 1,
        marker.len() >= 1,
    ensures
        match split_points(data, marker, n) {
            Some(b) => {
                &&& b.len() == n + 1
                &&& b[0] == 0
                &&& b[n as int] == data.len()
                &&& forall|k: int| 0 <= k < b.len() ==> 0 <= #[trigger] b[k] <= data.len()
                &&& forall|k: int| 0 <= k < b.len() - 1 ==> #[trigger] b[k] <= b[k + 1]
                &&& forall|k: int|
                    1 <= k < b.len() - 1 ==> marker.len() <= #[trigger] b[k] && match_at(
                        data,
                        marker,
                        b[k] - marker.len(),
                    ) && b[k - 1] <= b[k] - marker.len()
            },
            None => true,
        },
{
    let chunk = data.len() as int / n as int;
    match split_points_from(data, marker, chunk, 0, n) {
        None => {},
        Some(rest) => {
            lemma_split_points_from_props(data, marker, chunk, 0, n);
            let b = seq![0int] + rest;
            assert forall|k: int|
                1 <= k < b.len() - 1 implies marker.len() <= #[trigger] b[k] && match_at(
                data,
                marker,
                b[k] - marker.len(),
            ) && b[k - 1] <= b[k] - marker.len() by {
                assert(b[k] == rest[k - 1]);
                if k >= 2 {
                    assert(b[k - 1] == rest[k - 2]);
                } else {
                    assert(b[0] == 0);
                    assert(rest.len() >= 2);
                }
            }
            assert forall|k: int| 0 <= k < b.len() - 1 implies #[trigger] b[k] <= b[k + 1] by {
                assert(b[k + 1] == rest[k]);
                if k >= 1 {
                    assert(b[k] == rest[k - 1]);
                }
            }
        },
    }
}

/// Computes the cut points of an `n`-way record-aligned partition of `data`.
///
/// On success the result is exactly `split_points(data@, marker@, n)`; the
/// error reports that some shard's forward scan reached the end of the dump
/// without finding the marker.
pub fn compute_split_points(data: &Vec<u8>, marker: &Vec<u8>, n: usize) -> (r: Result<
    Vec<usize>,
    PartitionError,
>)
    requires
        1 <= n,
        marker.len() >= 1,
    ensures
        match r {
            Ok(b) => split_points(data@, marker@, n as nat) == Some(
                b@.map_values(|x: usize| x as int),
            ),
            Err(e) => split_points(data@, marker@, n as nat) is None && e
                == PartitionError::BoundaryNotFound,
        },
{
    let ghost gchunk: int = data@.len() as int / n as int;
    let chunk: usize = data.len() / n;
    let mut out: Vec<usize> = Vec::new();
    out.push(0);
    let mut last: usize = 0;
    let mut k: usize = 1;
    proof {
        assert(out@.map_values(|x: usize| x as int) =~= seq![0int]);
    }
    while k < n
        invariant
            1 <= k <= n,
            n <= usize::MAX,
            chunk == gchunk,
            gchunk == data@.len() as int / n as int,
            marker@.len() >= 1,
            out@.len() == k,
            last as int == out@[k - 1],
            last <= data@.len(),
            data@.len() == data.len(),
            ({
                let full = split_points(data@, marker@, n as nat);
                let tail = split_points_from(
                    data@,
                    marker@,
                    gchunk,
                    last as int,
                    (n - k + 1) as nat,
                );
                match tail {
                    None => full is None,
                    Some(rest) => full == Some(out@.map_values(|x: usize| x as int) + rest),
                }
            }),
        decreases n - k,
    {
        if chunk > data.len() - last {
            proof {
                assert(last + gchunk > data@.len());
                assert(first_match_from(data@, marker@, last as int + gchunk) is None);
                assert(split_points_from(
                    data@,
                    marker@,
                    gchunk,
                    last as int,
                    (n - k + 1) as nat,
                ) is None);
            }
            return Err(PartitionError::BoundaryNotFound);
        }
        let from = last + chunk;
        match find_after(data, marker, from) {
            None => {
                proof {
                    assert(split_points_from(
                        data@,
                        marker@,
                        gchunk,
                        last as int,
                        (n - k + 1) as nat,
                    ) is None);
                }
                return Err(PartitionError::BoundaryNotFound);
            },
            Some(end) => {
                let ghost old_map = out@.map_values(|x: usize| x as int);
                proof {
                    assert(first_match_from(data@, marker@, last as int + gchunk) == Some(
                        end - marker@.len() as int,
                    ));
                    assert(split_points_from(
                        data@,
                        marker@,
                        gchunk,
                        last as int,
                        (n - k + 1) as nat,
                    ) == match split_points_from(
                        data@,
                        marker@,
                        gchunk,
                        end as int,
                        (n - k) as nat,
                    ) {
                        None => None::<Seq<int>>,
                        Some(rest) => Some(seq![end as int] + rest),
                    });
                }
                out.push(end);
                last = end;
                k += 1;
                proof {
                    assert(out@.map_values(|x: usize| x as int) =~= old_map + seq![end as int]);
                    assert forall|rest: Seq<int>| true implies (old_map + (seq![end as int] + rest))
                        =~= (old_map + seq![end as int]) + rest by {}
                }
            },
        }
    }
    let ghost old_map = out@.map_values(|x: usize| x as int);
    out.push(data.len());
    proof {
        assert(split_points_from(data@, marker@, gchunk, last as int, 1nat) == Some(
            seq![data@.len() as int],
        ));
        assert(out@.map_values(|x: usize| x as int) =~= old_map + seq![data@.len() as int]);
    }
    Ok(out)
}

/// Concatenation of a sequence of byte sequences, in order.
pub open spec fn concat_all(ss: Seq<Seq<u8>>) -> Seq<u8>
    decreases ss.len(),
{
    if ss.len() == 0 {
        Seq::empty()
    } else {
        ss[0] + concat_all(ss.drop_first())
    }
}

/// Sum of the lengths of a sequence of byte sequences.
pub open spec fn total_len(ss: Seq<Seq<u8>>) -> int
    decreases ss.len(),
{
    if ss.len() == 0 {
        0
    } else {
        ss[0].len() + total_len(ss.drop_first())
    }
}

proof fn lemma_concat_all_push(ss: Seq<Seq<u8>>, x: Seq<u8>)
    ensures
        concat_all(ss.push(x)) == concat_all(ss) + x,
        total_len(ss.push(x)) == total_len(ss) + x.len(),
    decreases ss.len(),
{
    if ss.len() == 0 {
        assert(ss.push(x).drop_first() =~= ss);
        assert(ss.push(x)[0] == x);
        assert(concat_all(ss) =~= Seq::<u8>::empty());
        assert(x + Seq::<u8>::empty() =~= x);
        assert(Seq::<u8>::empty() + x =~= x);
    } else {
        assert(ss.push(x).drop_first() =~= ss.drop_first().push(x));
        assert(ss.push(x)[0] == ss[0]);
        lemma_concat_all_push(ss.drop_first(), x);
        assert((ss[0] + concat_all(ss.drop_first())) + x =~= ss[0] + (concat_all(ss.drop_first())
            + x));
    }
}

/// `s` ends with `suffix`.
pub open spec fn ends_with(s: Seq<u8>, suffix: Seq<u8>) -> bool {
    s.len() >= suffix.len() && s.subrange(s.len() - suffix.len(), s.len() as int) == suffix
}

fn copy_range(data: &Vec<u8>, lo: usize, hi: usize) -> (out: Vec<u8>)
    requires
        lo <= hi <= data.len(),
    ensures
        out@ == data@.subrange(lo as int, hi as int),
{
    let mut out: Vec<u8> = Vec::new();
    let mut i: usize = lo;
    while i < hi
        invariant
            lo <= i <= hi <= data.len(),
            out@ == data@.subrange(lo as int, i as int),
        decreases hi - i,
    {
        out.push(data[i]);
        i += 1;
        proof {
            assert(out@ =~= data@.subrange(lo as int, i as int));
        }
    }
    out
}

/// Cuts `data` into `n` contiguous shards on record boundaries.
///
/// On success: the shards are exactly the stretches between consecutive cut
/// points, concatenating them in order reproduces `data` byte for byte, their
/// sizes sum to the dump's size, and every shard but the last ends with the
/// marker (the last one ends exactly at the end of the dump, marker or not).
pub fn partition_bytes(data: &Vec<u8>, marker: &Vec<u8>, n: usize) -> (r: Result<
    Vec<Vec<u8>>,
    PartitionError,
>)
    requires
        1 <= n,
        marker.len() >= 1,
    ensures
        match r {
            Ok(shards) => {
                &&& split_points(data@, marker@, n as nat) is Some
                &&& shards@.len() == n
                &&& ({
                    let b = split_points(data@, marker@, n as nat).unwrap();
                    forall|k: int|
                        0 <= k < n ==> #[trigger] shards@[k]@ == data@.subrange(b[k], b[k + 1])
                })
                &&& concat_all(shards@.map_values(|s: Vec<u8>| s@)) == data@
                &&& total_len(shards@.map_values(|s: Vec<u8>| s@)) == data@.len()
                &&& forall|k: int| 0 <= k < n - 1 ==> ends_with(#[trigger] shards@[k]@, marker@)
            },
            Err(e) => split_points(data@, marker@, n as nat) is None && e
                == PartitionError::BoundaryNotFound,
        },
{
    let b = match compute_split_points(data, marker, n) {
        Ok(b) => b,
        Err(e) => {
            return Err(e);
        },
    };
    let ghost gb = split_points(data@, marker@, n as nat).unwrap();
    proof {
        lemma_split_points_props(data@, marker@, n as nat);
    }
    let mut shards: Vec<Vec<u8>> = Vec::new();
    let mut k: usize = 0;
    proof {
        assert(shards@.map_values(|s: Vec<u8>| s@) =~= Seq::<Seq<u8>>::empty());
        assert(data@.subrange(0, gb[0]) =~= Seq::<u8>::empty());
    }
    while k < n
        invariant
            k <= n,
            1 <= n,
            marker@.len() >= 1,
            b@.len() == n + 1,
            split_points(data@, marker@, n as nat) is Some,
            gb == split_points(data@, marker@, n as nat).unwrap(),
            gb == b@.map_values(|x: usize| x as int),
            shards@.len() == k,
            forall|j: int|
                0 <= j < k ==> #[trigger] shards@[j]@ == data@.subrange(gb[j], gb[j + 1]),
            concat_all(shards@.map_values(|s: Vec<u8>| s@)) == data@.subrange(0, gb[k as int]),
            total_len(shards@.map_values(|s: Vec<u8>| s@)) == gb[k as int],
        decreases n - k,
    {
        proof {
            lemma_split_points_props(data@, marker@, n as nat);
            assert(gb[k as int] == b@[k as int]);
            assert(gb[k as int + 1] == b@[k as int + 1]);
        }
        let lo = b[k];
        let hi = b[k + 1];
        let piece = copy_range(data, lo, hi);
        let ghost old_m = shards@.map_values(|s: Vec<u8>| s@);
        shards.push(piece);
        k += 1;
        proof {
            assert(shards@.map_values(|s: Vec<u8>| s@) =~= old_m.push(piece@));
            lemma_concat_all_push(old_m, piece@);
            assert(data@.subrange(0, gb[k - 1]) + data@.subrange(gb[k - 1], gb[k as int])
                =~= data@.subrange(0, gb[k as int]));
        }
    }
    proof {
        lemma_split_points_props(data@, marker@, n as nat);
        assert(data@.subrange(0, gb[n as int]) =~= data@);
        assert forall|j: int| 0 <= j < n - 1 implies ends_with(#[trigger] shards@[j]@, marker@) by {
            let s = shards@[j]@;
            let m = marker@.len() as int;
            assert(s == data@.subrange(gb[j], gb[j + 1]));
            assert(match_at(data@, marker@, gb[j + 1] - m));
            assert(gb[j] <= gb[j + 1] - m);
            assert(s.len() == gb[j + 1] - gb[j]);
            assert(s.subrange(s.len() - m, s.len() as int) =~= marker@);
        }
    }
    Ok(shards)
}

} // verus!
