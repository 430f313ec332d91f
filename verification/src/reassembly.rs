//! Reassembly of telegram payloads from transport fragments.
//!
//! Fragments that share an identification number belong to one telegram;
//! each carries the offset of its payload slice and the total length the
//! complete payload will have.  The [`Reassembler`] stores the slices of
//! every in-flight telegram in offset order, rejects fragments that
//! contradict the recorded total length or overlap a stored range, and
//! hands out the concatenated payload as soon as the stored ranges cover
//! it completely.  A telegram that stays idle for too long is dropped so
//! that lost trailing fragments cannot pin memory forever.

use crate::udp::UDPDatagramHeader;
use crate::DecodeError;
use vstd::prelude::*;

verus! {

/// One stored slice of a telegram's payload.
#[derive(Debug)]
pub struct Fragment {
    pub offset: u32,
    pub bytes: Vec<u8>,
}

/// A fragment as the specifications see it: its offset and its bytes.
pub open spec fn frag_view(f: Fragment) -> (u32, Seq<u8>) {
    (f.offset, f.bytes@)
}

/// Where a fragment's byte range ends.
pub open spec fn frag_end(f: (u32, Seq<u8>)) -> int {
    f.0 + f.1.len()
}

/// The fragments sit in increasing offset order and no two ranges overlap.
pub open spec fn frags_disjoint_sorted(fs: Seq<(u32, Seq<u8>)>) -> bool {
    forall|i: int| 0 <= i < fs.len() - 1 ==> frag_end(#[trigger] fs[i]) <= fs[i + 1].0
}

/// Every fragment is non-empty and lies inside a payload of `total` bytes.
pub open spec fn frags_within(fs: Seq<(u32, Seq<u8>)>, total: int) -> bool {
    forall|i: int|
        0 <= i < fs.len() ==> 1 <= (#[trigger] fs[i]).1.len() && frag_end(fs[i]) <= total
}

/// Total number of payload bytes the fragments hold.
pub open spec fn frags_size(fs: Seq<(u32, Seq<u8>)>) -> int
    decreases fs.len(),
{
    if fs.len() == 0 {
        0
    } else {
        frags_size(fs.drop_last()) + fs.last().1.len()
    }
}

/// The fragments' bytes, concatenated in storage order.
pub open spec fn frags_bytes(fs: Seq<(u32, Seq<u8>)>) -> Seq<u8>
    decreases fs.len(),
{
    if fs.len() == 0 {
        Seq::empty()
    } else {
        frags_bytes(fs.drop_last()) + fs.last().1
    }
}

/// The unclaimed room between consecutive fragments.
pub open spec fn frags_gaps(fs: Seq<(u32, Seq<u8>)>) -> int
    decreases fs.len(),
{
    if fs.len() <= 1 {
        0
    } else {
        frags_gaps(fs.drop_last()) + (fs.last().0 - frag_end(fs[fs.len() - 2]))
    }
}

/// The fragment ranges cover `[0, total)` without a gap.
pub open spec fn frags_contiguous(fs: Seq<(u32, Seq<u8>)>, total: int) -> bool {
    &&& (fs.len() == 0 ==> total == 0)
    &&& (fs.len() > 0 ==> fs[0].0 == 0 && frag_end(fs.last()) == total)
    &&& forall|i: int| 0 <= i < fs.len() - 1 ==> frag_end(#[trigger] fs[i]) == fs[i + 1].0
}

/// Dropping the last fragment keeps the list sorted and disjoint.
proof fn lemma_drop_last_disjoint_sorted(fs: Seq<(u32, Seq<u8>)>)
    requires
        frags_disjoint_sorted(fs),
        fs.len() > 0,
    ensures
        frags_disjoint_sorted(fs.drop_last()),
{
    assert forall|i: int| 0 <= i < fs.drop_last().len() - 1 implies frag_end(
        #[trigger] fs.drop_last()[i],
    ) <= fs.drop_last()[i + 1].0 by {
        assert(fs.drop_last()[i] == fs[i] && fs.drop_last()[i + 1] == fs[i + 1]);
    }
}

/// The sizes and the gaps together account exactly for the span from the
/// first offset to the last end.
proof fn lemma_size_and_gaps(fs: Seq<(u32, Seq<u8>)>)
    requires
        fs.len() > 0,
    ensures
        frags_size(fs) + frags_gaps(fs) == frag_end(fs.last()) - fs[0].0,
    decreases fs.len(),
{
    if fs.len() > 1 {
        lemma_size_and_gaps(fs.drop_last());
        assert(fs.drop_last().last() == fs[fs.len() - 2]);
        assert(fs.drop_last()[0] == fs[0]);
    } else {
        assert(fs.drop_last().len() == 0);
        assert(frags_size(fs.drop_last()) == 0);
        assert(frags_size(fs) == fs.last().1.len());
        assert(fs.last() == fs[0]);
    }
}

/// Sorted, disjoint fragments leave only non-negative gaps.
proof fn lemma_gaps_nonneg(fs: Seq<(u32, Seq<u8>)>)
    requires
        frags_disjoint_sorted(fs),
    ensures
        frags_gaps(fs) >= 0,
    decreases fs.len(),
{
    if fs.len() > 1 {
        lemma_drop_last_disjoint_sorted(fs);
        lemma_gaps_nonneg(fs.drop_last());
        assert(frag_end(fs[fs.len() - 2]) <= fs[fs.len() - 1].0);
    }
}

/// When sorted, disjoint fragments leave no room in total, every pair of
/// neighbours is adjacent.
proof fn lemma_zero_gaps(fs: Seq<(u32, Seq<u8>)>)
    requires
        frags_disjoint_sorted(fs),
        frags_gaps(fs) == 0,
    ensures
        forall|i: int| 0 <= i < fs.len() - 1 ==> frag_end(#[trigger] fs[i]) == fs[i + 1].0,
    decreases fs.len(),
{
    if fs.len() > 1 {
        lemma_drop_last_disjoint_sorted(fs);
        lemma_gaps_nonneg(fs.drop_last());
        assert(frag_end(fs[fs.len() - 2]) <= fs[fs.len() - 1].0);
        lemma_zero_gaps(fs.drop_last());
        assert forall|i: int| 0 <= i < fs.len() - 1 implies frag_end(#[trigger] fs[i]) == fs[i
            + 1].0 by {
            if i < fs.len() - 2 {
                assert(fs.drop_last()[i] == fs[i] && fs.drop_last()[i + 1] == fs[i + 1]);
            }
        }
    }
}

/// Sorted, disjoint, non-empty fragments inside `[0, total)` whose sizes
/// sum to `total` cover the whole range without a gap.
pub proof fn lemma_complete_contiguous(fs: Seq<(u32, Seq<u8>)>, total: int)
    requires
        frags_disjoint_sorted(fs),
        frags_within(fs, total),
        frags_size(fs) == total,
    ensures
        frags_contiguous(fs, total),
{
    if fs.len() > 0 {
        lemma_size_and_gaps(fs);
        lemma_gaps_nonneg(fs);
        assert(frag_end(fs[fs.len() - 1]) <= total);
        lemma_zero_gaps(fs);
    }
}

/// Inserting a fragment grows the total size by that fragment's size.
pub proof fn lemma_frags_size_insert(fs: Seq<(u32, Seq<u8>)>, k: int, f: (u32, Seq<u8>))
    requires
        0 <= k <= fs.len(),
    ensures
        frags_size(fs.insert(k, f)) == frags_size(fs) + f.1.len(),
    decreases fs.len(),
{
    let g = fs.insert(k, f);
    if k == fs.len() {
        assert(g.drop_last() =~= fs);
        assert(g.last() == f);
    } else {
        assert(g.drop_last() =~= fs.drop_last().insert(k, f));
        assert(g.last() == fs.last());
        lemma_frags_size_insert(fs.drop_last(), k, f);
    }
}

/// Adjacent fragments that are slices of one original, starting at offset
/// zero, concatenate to the original's prefix of their combined size.
proof fn lemma_bytes_prefix(fs: Seq<(u32, Seq<u8>)>, original: Seq<u8>)
    requires
        fs.len() > 0 ==> fs[0].0 == 0,
        forall|i: int| 0 <= i < fs.len() - 1 ==> frag_end(#[trigger] fs[i]) == fs[i + 1].0,
        forall|i: int| 0 <= i < fs.len() ==> frag_end(#[trigger] fs[i]) <= original.len(),
        forall|i: int|
            0 <= i < fs.len() ==> (#[trigger] fs[i]).1 == original.subrange(
                fs[i].0 as int,
                frag_end(fs[i]),
            ),
    ensures
        frags_bytes(fs) == original.subrange(0, frags_size(fs)),
        frags_size(fs) == if fs.len() == 0 {
            0int
        } else {
            frag_end(fs.last())
        },
    decreases fs.len(),
{
    if fs.len() == 0 {
        assert(frags_bytes(fs) =~= original.subrange(0, 0));
    } else {
        let fsp = fs.drop_last();
        assert forall|i: int| 0 <= i < fsp.len() implies (#[trigger] fsp[i]) == fs[i] by {}
        lemma_bytes_prefix(fsp, original);
        let last = fs.last();
        if fsp.len() == 0 {
            assert(frags_size(fsp) == last.0);
        } else {
            assert(fsp.last() == fs[fs.len() - 2]);
            assert(frag_end(fs[fs.len() - 2]) == last.0);
        }
        assert(frags_bytes(fs) == original.subrange(0, frags_size(fsp)) + original.subrange(
            last.0 as int,
            frag_end(last),
        ));
        assert(original.subrange(0, frags_size(fsp)) + original.subrange(
            last.0 as int,
            frag_end(last),
        ) =~= original.subrange(0, frags_size(fs)));
    }
}

/// A telegram split into non-overlapping fragments that jointly cover the
/// whole payload reassembles into exactly the original byte sequence —
/// whatever order the fragments arrived in, once they sit in offset order
/// their concatenation is the original.  `fs` is the stored fragment list
/// of a completed telegram, each fragment a slice of `original`.
pub proof fn lemma_reassembly_round_trip(fs: Seq<(u32, Seq<u8>)>, original: Seq<u8>)
    requires
        frags_disjoint_sorted(fs),
        frags_within(fs, original.len() as int),
        frags_size(fs) == original.len(),
        forall|i: int|
            0 <= i < fs.len() ==> (#[trigger] fs[i]).1 == original.subrange(
                fs[i].0 as int,
                frag_end(fs[i]),
            ),
    ensures
        frags_bytes(fs) == original,
{
    lemma_complete_contiguous(fs, original.len() as int);
    lemma_bytes_prefix(fs, original);
    assert(original.subrange(0, original.len() as int) =~= original);
}

/// In a sorted, disjoint list of non-empty fragments the offsets strictly
/// increase.
proof fn lemma_offsets_increase(fs: Seq<(u32, Seq<u8>)>, i: int, j: int)
    requires
        frags_disjoint_sorted(fs),
        forall|m: int| 0 <= m < fs.len() ==> 1 <= (#[trigger] fs[m]).1.len(),
        0 <= i < j < fs.len(),
    ensures
        fs[i].0 < fs[j].0,
    decreases j - i,
{
    if j > i + 1 {
        lemma_offsets_increase(fs, i, j - 1);
    }
}

/// However a telegram's fragments arrived, the stored state they build is
/// the same: a sorted, disjoint list of non-empty fragments is determined
/// by the collection of fragments alone, so no arrival order can be told
/// apart from another once the fragments are stored.
#[verifier::rlimit(100)]
pub proof fn lemma_fragment_order_irrelevant(a: Seq<(u32, Seq<u8>)>, b: Seq<(u32, Seq<u8>)>)
    requires
        frags_disjoint_sorted(a),
        frags_disjoint_sorted(b),
        forall|m: int| 0 <= m < a.len() ==> 1 <= (#[trigger] a[m]).1.len(),
        forall|m: int| 0 <= m < b.len() ==> 1 <= (#[trigger] b[m]).1.len(),
        a.to_multiset() == b.to_multiset(),
    ensures
        a == b,
    decreases a.len(),
{
    vstd::seq_lib::to_multiset_len(a);
    vstd::seq_lib::to_multiset_len(b);
    assert(a.len() == b.len());
    if a.len() == 0 {
        assert(a =~= b);
    } else {
        // the element with the greatest offset is the last of both lists
        vstd::seq_lib::to_multiset_contains(a, a.last());
        vstd::seq_lib::to_multiset_contains(b, a.last());
        vstd::seq_lib::to_multiset_contains(a, b.last());
        vstd::seq_lib::to_multiset_contains(b, b.last());
        assert(b.contains(a.last()));
        let j = choose|j: int| 0 <= j < b.len() && b[j] == a.last();
        assert(a.contains(b.last()));
        let i = choose|i: int| 0 <= i < a.len() && a[i] == b.last();
        if j < b.len() - 1 {
            lemma_offsets_increase(b, j, b.len() - 1);
        }
        if i < a.len() - 1 {
            lemma_offsets_increase(a, i, a.len() - 1);
        }
        assert(a.last().0 == b.last().0);
        if j < b.len() - 1 {
            assert(false);
        }
        assert(b.last() == a.last());
        // peel the last element off and recurse
        assert(a.drop_last() =~= a.remove(a.len() - 1));
        assert(b.drop_last() =~= b.remove(b.len() - 1));
        assert(a.drop_last().to_multiset() == b.drop_last().to_multiset()) by {
            vstd::seq_lib::to_multiset_remove(a, a.len() - 1);
            vstd::seq_lib::to_multiset_remove(b, b.len() - 1);
        }
        lemma_drop_last_disjoint_sorted(a);
        lemma_drop_last_disjoint_sorted(b);
        assert(forall|m: int|
            0 <= m < a.drop_last().len() ==> 1 <= (#[trigger] a.drop_last()[m]).1.len());
        assert(forall|m: int|
            0 <= m < b.drop_last().len() ==> 1 <= (#[trigger] b.drop_last()[m]).1.len());
        lemma_fragment_order_irrelevant(a.drop_last(), b.drop_last());
        assert forall|m: int| 0 <= m < a.len() implies a[m] == b[m] by {
            if m < a.len() - 1 {
                assert(a.drop_last()[m] == b.drop_last()[m]);
            }
        }
        assert(a =~= b);
    }
}

/// One telegram whose fragments are still being collected.
#[derive(Debug)]
pub struct PendingTelegram {
    /// Identification number shared by all fragments of the telegram.
    pub identification: u32,
    /// Total payload length recorded from the first fragment's header;
    /// every later fragment must agree on it.
    pub total_length: u32,
    /// The payload slices received so far, in offset order.
    pub fragments: Vec<Fragment>,
    /// Sum of the stored slices' lengths, kept so that completeness is one
    /// comparison.
    pub bytes_received: u32,
    /// Caller-supplied tick of the last accepted fragment, for idle
    /// eviction.
    pub last_update: u64,
}

impl PendingTelegram {
    /// The stored fragments as the specifications see them.
    pub open spec fn frags(self) -> Seq<(u32, Seq<u8>)> {
        self.fragments@.map_values(|f: Fragment| frag_view(f))
    }

    /// The stored slices are non-empty, in offset order, pairwise disjoint
    /// and inside the recorded total length, and the byte count matches
    /// them.
    pub open spec fn wf(self) -> bool {
        &&& frags_disjoint_sorted(self.frags())
        &&& frags_within(self.frags(), self.total_length as int)
        &&& self.bytes_received == frags_size(self.frags())
        &&& self.fragments@.len() >= 1
    }

    /// Sorts a fresh, non-overlapping slice into the stored fragments and
    /// brings the byte count and idle tick up to date.
    #[verifier::loop_isolation(false)]
    #[verifier::rlimit(60)]
    fn add_fragment(&mut self, off: u32, fragment_payload: &[u8], now: u64)
        requires
            old(self).wf(),
            1 <= fragment_payload@.len(),
            off + fragment_payload@.len() <= old(self).total_length,
            !has_duplicate(old(self).frags(), off, fragment_payload@),
            !has_overlap(old(self).frags(), off, fragment_payload@.len() as int),
        ensures
            final(self).wf(),
            stored_with(*old(self), *final(self), off, fragment_payload@, now),
    {
        let n = fragment_payload.len();
        let ghost data = fragment_payload@;
        let ghost fs = self.frags();
        let total = self.total_length;

        // find the new slice's offset position
        let mut k: usize = 0;
        while k < self.fragments.len() && self.fragments[k].offset < off
            invariant
                k <= self.fragments@.len(),
                fs == self.frags(),
                forall|m: int| 0 <= m < k ==> (#[trigger] fs[m]).0 < off,
            decreases self.fragments@.len() - k,
        {
            k += 1;
        }
        let bytes = vstd::slice::slice_to_vec(fragment_payload);
        self.fragments.insert(k, Fragment { offset: off, bytes });
        let ghost fs2 = fs.insert(k as int, (off, data));
        proof {
            assert(self.frags() =~= fs2);
            assert forall|m: int| 0 <= m < fs2.len() - 1 implies frag_end(#[trigger] fs2[m]) <= fs2[m
                + 1].0 by {
                if m + 1 < k as int {
                    assert(fs2[m] == fs[m] && fs2[m + 1] == fs[m + 1]);
                } else if m + 1 == k as int {
                    assert(fs2[m] == fs[m] && fs2[m + 1] == (off, data));
                    assert(fs[m].0 < off);
                    assert(!ranges_overlap(
                        fs[m].0 as int,
                        fs[m].1.len() as int,
                        off as int,
                        n as int,
                    ));
                } else if m == k as int {
                    assert(fs2[m] == (off, data) && fs2[m + 1] == fs[m]);
                    assert(fs[m].0 >= off);
                    assert(1 <= fs[m].1.len());
                    assert(!ranges_overlap(
                        fs[m].0 as int,
                        fs[m].1.len() as int,
                        off as int,
                        n as int,
                    ));
                } else {
                    assert(fs2[m] == fs[m - 1] && fs2[m + 1] == fs[m]);
                }
            }
            assert(frags_within(fs2, total as int)) by {
                assert forall|m: int| 0 <= m < fs2.len() implies 1 <= (#[trigger] fs2[m]).1.len()
                    && frag_end(fs2[m]) <= total as int by {
                    if m < k as int {
                        assert(fs2[m] == fs[m]);
                    } else if m == k as int {
                        assert(fs2[m] == (off, data));
                    } else {
                        assert(fs2[m] == fs[m - 1]);
                    }
                }
            }
            lemma_frags_size_insert(fs, k as int, (off, data));
            lemma_frags_size_bounded(fs2, total as int);
        }
        let new_size = (self.bytes_received as u64) + (n as u64);
        self.bytes_received = new_size as u32;
        self.last_update = now;
    }
}

/// What [`Reassembler::ingest`] made of one fragment.
#[derive(Debug, PartialEq, Eq)]
pub enum FragmentOutcome {
    /// The fragment was stored; the telegram is still incomplete.
    NeedsMore,
    /// The last missing fragment arrived: the complete payload, in offset
    /// order.
    Complete(Vec<u8>),
    /// The identical range was already stored with identical bytes.
    DuplicateIgnored,
    /// The fragment's range overlaps an already-stored range.
    OverlapError,
    /// The fragment contradicts the telegram's total length: its header
    /// disagrees with the recorded one, or its slice reaches past it.
    LengthMismatchError,
}

/// A pending telegram is stale once more than `limit` ticks passed since
/// its last accepted fragment.
pub open spec fn stale(p: PendingTelegram, now: u64, limit: u64) -> bool {
    p.last_update + limit < now
}

/// The pending telegrams that survive an idle sweep at `now`, in order.
pub open spec fn retained(s: Seq<PendingTelegram>, now: u64, limit: u64) -> Seq<PendingTelegram>
    decreases s.len(),
{
    if s.len() == 0 {
        s
    } else {
        let rest = retained(s.drop_last(), now, limit);
        if stale(s.last(), now, limit) {
            rest
        } else {
            rest.push(s.last())
        }
    }
}

/// The idle sweep's report at `now`: each dropped telegram's
/// identification, marked `ReassemblyTimedOut`, in order.
pub open spec fn timed_out(s: Seq<PendingTelegram>, now: u64, limit: u64) -> Seq<
    (u32, DecodeError),
>
    decreases s.len(),
{
    if s.len() == 0 {
        Seq::empty()
    } else {
        let rest = timed_out(s.drop_last(), now, limit);
        if stale(s.last(), now, limit) {
            rest.push((s.last().identification, DecodeError::ReassemblyTimedOut))
        } else {
            rest
        }
    }
}

/// An idle sweep keeps only well-formed entries with pairwise distinct
/// identifications, because it only ever removes entries.
proof fn lemma_retained_wf(s: Seq<PendingTelegram>, now: u64, limit: u64)
    requires
        forall|i: int| 0 <= i < s.len() ==> (#[trigger] s[i]).wf(),
        forall|i: int, j: int|
            0 <= i < j < s.len() ==> s[i].identification != s[j].identification,
    ensures
        forall|i: int|
            0 <= i < retained(s, now, limit).len() ==> (#[trigger] retained(s, now, limit)[i]).wf()
                && exists|j: int| 0 <= j < s.len() && retained(s, now, limit)[i] == s[j],
        forall|i: int, j: int|
            0 <= i < j < retained(s, now, limit).len() ==> retained(
                s,
                now,
                limit,
            )[i].identification != retained(s, now, limit)[j].identification,
    decreases s.len(),
{
    if s.len() > 0 {
        let sp = s.drop_last();
        lemma_retained_wf(sp, now, limit);
        let rest = retained(sp, now, limit);
        assert forall|i: int| 0 <= i < rest.len() implies (#[trigger] rest[i]).wf() && exists|
            j: int,
        | 0 <= j < s.len() && rest[i] == s[j] by {
            let j = choose|j: int| 0 <= j < sp.len() && rest[i] == sp[j];
            assert(s[j] == sp[j]);
        }
        if !stale(s.last(), now, limit) {
            let out = retained(s, now, limit);
            assert forall|i: int, j: int| 0 <= i < j < out.len() implies out[i].identification
                != out[j].identification by {
                if j < out.len() - 1 {
                    assert(out[i] == rest[i] && out[j] == rest[j]);
                } else {
                    assert(out[i] == rest[i] && out[j] == s[s.len() - 1]);
                    let k = choose|k: int| 0 <= k < sp.len() && rest[i] == sp[k];
                    assert(s[k] == sp[k]);
                }
            }
        }
    }
}

/// A stored fragment already holds exactly this range with these bytes.
pub open spec fn has_duplicate(fs: Seq<(u32, Seq<u8>)>, off: u32, data: Seq<u8>) -> bool {
    exists|j: int| 0 <= j < fs.len() && (#[trigger] fs[j]).0 == off && fs[j].1 == data
}

/// The two byte ranges intersect.
pub open spec fn ranges_overlap(o1: int, n1: int, o2: int, n2: int) -> bool {
    o1 < o2 + n2 && o2 < o1 + n1
}

/// The range `[off, off + n)` intersects a stored fragment's range.
pub open spec fn has_overlap(fs: Seq<(u32, Seq<u8>)>, off: u32, n: int) -> bool {
    exists|j: int|
        0 <= j < fs.len() && ranges_overlap(
            (#[trigger] fs[j]).0 as int,
            fs[j].1.len() as int,
            off as int,
            n,
        )
}

/// A fragment for `id` claiming total length `total` and byte range
/// `[off, off + n)` contradicts what is known of the telegram's length:
/// either a pending telegram with this identification recorded a different
/// total, or the range itself reaches past the claimed total.
pub open spec fn length_conflict(pre: Reassembler, id: u32, total: u32, off: u32, n: int) -> bool {
    ||| exists|i: int|
        0 <= i < pre.pending@.len() && (#[trigger] pre.pending@[i]).identification == id
            && pre.pending@[i].total_length != total
    ||| off + n > total
}

/// What `ingest` promises for the first fragment of a fresh
/// identification (no length conflict, nothing pending for `id`).
pub open spec fn ingest_spec_new(
    pre: Reassembler,
    post: Reassembler,
    id: u32,
    total: u32,
    off: u32,
    data: Seq<u8>,
    now: u64,
    r: FragmentOutcome,
) -> bool {
    let n = data.len() as int;
    if off == 0 && n == total {
        // a telegram delivered as a single fragment completes immediately,
        // without intermediate state
        &&& r matches FragmentOutcome::Complete(p) && p@ == data
        &&& post.pending@ == pre.pending@
    } else if n == 0 {
        // an empty slice carries nothing worth recording
        &&& r == FragmentOutcome::NeedsMore
        &&& post.pending@ == pre.pending@
    } else {
        &&& r == FragmentOutcome::NeedsMore
        &&& post.pending@.len() == pre.pending@.len() + 1
        &&& post.pending@.drop_last() == pre.pending@
        &&& post.pending@.last().identification == id
        &&& post.pending@.last().total_length == total
        &&& post.pending@.last().frags() == seq![(off, data)]
        &&& post.pending@.last().bytes_received == n
        &&& post.pending@.last().last_update == now
    }
}

/// The updated entry `q` holds `p`'s fragments plus the new one at its
/// sorted position, with the byte count and idle tick brought up to date.
pub open spec fn stored_with(
    p: PendingTelegram,
    q: PendingTelegram,
    off: u32,
    data: Seq<u8>,
    now: u64,
) -> bool {
    &&& q.identification == p.identification
    &&& q.total_length == p.total_length
    &&& q.bytes_received == p.bytes_received + data.len()
    &&& q.last_update == now
    &&& exists|k: int|
        #![auto]
        0 <= k <= p.frags().len() && q.frags() == p.frags().insert(k, (off, data))
}

/// The completed payload `out`: the stored fragments plus the final one
/// sit in offset order, cover `[0, total)` exactly, and `out` is their
/// concatenation.
pub open spec fn completed_payload(
    fs: Seq<(u32, Seq<u8>)>,
    off: u32,
    data: Seq<u8>,
    total: int,
    out: Seq<u8>,
) -> bool {
    exists|k: int|
        #![trigger fs.insert(k, (off, data))]
        {
            let all = fs.insert(k, (off, data));
            &&& 0 <= k <= fs.len()
            &&& frags_disjoint_sorted(all)
            &&& frags_contiguous(all, total)
            &&& out == frags_bytes(all)
        }
}

/// What `ingest` promises for a fragment of the telegram already pending
/// at index `i` (no length conflict).  The checks run in this order:
/// exact duplicates are ignored, an empty slice changes nothing, an
/// overlapping range is rejected, and an accepted slice either completes
/// the telegram or is stored.
pub open spec fn ingest_spec_stored(
    pre: Reassembler,
    post: Reassembler,
    i: int,
    total: u32,
    off: u32,
    data: Seq<u8>,
    now: u64,
    r: FragmentOutcome,
) -> bool {
    let n = data.len() as int;
    let p = pre.pending@[i];
    if has_duplicate(p.frags(), off, data) {
        r == FragmentOutcome::DuplicateIgnored && post.pending@ == pre.pending@
    } else if n == 0 {
        r == FragmentOutcome::NeedsMore && post.pending@ == pre.pending@
    } else if has_overlap(p.frags(), off, n) {
        r == FragmentOutcome::OverlapError && post.pending@ == pre.pending@
    } else if frags_size(p.frags()) + n == total {
        &&& r matches FragmentOutcome::Complete(out) && completed_payload(
            p.frags(),
            off,
            data,
            total as int,
            out@,
        )
        &&& post.pending@ == pre.pending@.remove(i)
    } else {
        &&& r == FragmentOutcome::NeedsMore
        &&& post.pending@.len() == pre.pending@.len()
        &&& forall|j: int|
            0 <= j < pre.pending@.len() && j != i ==> post.pending@[j] == pre.pending@[j]
        &&& stored_with(p, post.pending@[i], off, data, now)
    }
}

/// Everything `ingest` promises, relating the reassembler before (`pre`)
/// and after (`post`) one fragment of `data.len()` bytes at offset `off`
/// for telegram `id` with claimed total length `total`.
pub open spec fn ingest_spec(
    pre: Reassembler,
    post: Reassembler,
    id: u32,
    total: u32,
    off: u32,
    data: Seq<u8>,
    now: u64,
    r: FragmentOutcome,
) -> bool {
    let n = data.len() as int;
    &&& post.idle_limit == pre.idle_limit
    &&& (length_conflict(pre, id, total, off, n) ==> r == FragmentOutcome::LengthMismatchError
        && post.pending@ == pre.pending@)
    &&& (!length_conflict(pre, id, total, off, n) && !pre.has_pending(id) ==> ingest_spec_new(
        pre,
        post,
        id,
        total,
        off,
        data,
        now,
        r,
    ))
    &&& (!length_conflict(pre, id, total, off, n) ==> forall|i: int|
        0 <= i < pre.pending@.len() && (#[trigger] pre.pending@[i]).identification == id
            ==> ingest_spec_stored(pre, post, i, total, off, data, now, r))
}

/// Sorted, disjoint fragments inside `[0, total)` cannot hold more than
/// `total` bytes.
pub proof fn lemma_frags_size_bounded(fs: Seq<(u32, Seq<u8>)>, total: int)
    requires
        frags_disjoint_sorted(fs),
        frags_within(fs, total),
        total >= 0,
    ensures
        frags_size(fs) <= total,
{
    if fs.len() > 0 {
        lemma_size_and_gaps(fs);
        lemma_gaps_nonneg(fs);
        assert(frag_end(fs[fs.len() - 1]) <= total);
    }
}

/// In a well-formed reassembler, at most one pending telegram carries a
/// given identification.
proof fn lemma_only_index(pre: Reassembler, id: u32, i: int)
    requires
        pre.wf(),
        0 <= i < pre.pending@.len(),
        pre.pending@[i].identification == id,
    ensures
        forall|i2: int|
            0 <= i2 < pre.pending@.len() && (#[trigger] pre.pending@[i2]).identification == id
                ==> i2 == i,
{
    assert forall|i2: int|
        0 <= i2 < pre.pending@.len() && (#[trigger] pre.pending@[i2]).identification
            == id implies i2 == i by {
        if i2 < i {
            assert(pre.pending@[i2].identification != pre.pending@[i].identification);
        } else if i2 > i {
            assert(pre.pending@[i].identification != pre.pending@[i2].identification);
        }
    }
}

/// Concatenates a pending telegram's stored slices, which sit in offset
/// order.
#[verifier::loop_isolation(false)]
fn assemble(p: &PendingTelegram) -> (out: Vec<u8>)
    ensures
        out@ == frags_bytes(p.frags()),
{
    let mut out: Vec<u8> = Vec::new();
    let mut i: usize = 0;
    proof {
        assert(p.frags().take(0) =~= Seq::<(u32, Seq<u8>)>::empty());
    }
    while i < p.fragments.len()
        invariant
            i <= p.fragments@.len(),
            out@ == frags_bytes(p.frags().take(i as int)),
        decreases p.fragments@.len() - i,
    {
        let fr = &p.fragments[i];
        let mut j: usize = 0;
        proof {
            assert(out@ =~= frags_bytes(p.frags().take(i as int)) + fr.bytes@.take(0));
        }
        while j < fr.bytes.len()
            invariant
                i < p.fragments@.len(),
                fr.bytes@ == p.frags()[i as int].1,
                j <= fr.bytes@.len(),
                out@ == frags_bytes(p.frags().take(i as int)) + fr.bytes@.take(j as int),
            decreases fr.bytes@.len() - j,
        {
            out.push(fr.bytes[j]);
            proof {
                assert(fr.bytes@.take(j + 1) =~= fr.bytes@.take(j as int).push(fr.bytes@[j as int]));
                assert(out@ =~= frags_bytes(p.frags().take(i as int)) + fr.bytes@.take(j + 1));
            }
            j += 1;
        }
        proof {
            assert(fr.bytes@.take(fr.bytes@.len() as int) =~= fr.bytes@);
            assert(p.frags().take(i + 1).drop_last() =~= p.frags().take(i as int));
            assert(p.frags().take(i + 1).last() == p.frags()[i as int]);
        }
        i += 1;
    }
    proof {
        assert(p.frags().take(p.fragments@.len() as int) =~= p.frags());
    }
    out
}

/// Scans a pending telegram's stored slices for an exact duplicate of the
/// fragment and for a range overlapping it.
#[verifier::loop_isolation(false)]
fn scan_conflicts(p: &PendingTelegram, off: u32, fragment_payload: &[u8]) -> (r: (bool, bool))
    requires
        p.wf(),
        off + fragment_payload@.len() <= u32::MAX,
    ensures
        r.0 == has_duplicate(p.frags(), off, fragment_payload@),
        r.1 == has_overlap(p.frags(), off, fragment_payload@.len() as int),
{
    let ghost fs = p.frags();
    let ghost data = fragment_payload@;
    let n = fragment_payload.len();
    let mut dup = false;
    let mut ovl = false;
    let mut j: usize = 0;
    while j < p.fragments.len()
        invariant
            j <= p.fragments@.len(),
            dup == exists|m: int| 0 <= m < j && (#[trigger] fs[m]).0 == off && fs[m].1 == data,
            ovl == exists|m: int|
                0 <= m < j && ranges_overlap(
                    (#[trigger] fs[m]).0 as int,
                    fs[m].1.len() as int,
                    off as int,
                    n as int,
                ),
        decreases p.fragments@.len() - j,
    {
        let f_off = p.fragments[j].offset;
        let f_len = p.fragments[j].bytes.len();
        proof {
            assert(frag_end(fs[j as int]) <= p.total_length as int);
        }
        if f_off == off && bytes_eq(p.fragments[j].bytes.as_slice(), fragment_payload) {
            dup = true;
        }
        if (off as u64) < (f_off as u64) + (f_len as u64) && (f_off as u64) < (off as u64) + (n
            as u64) {
            ovl = true;
        }
        j += 1;
    }
    (dup, ovl)
}

/// Byte-for-byte equality of two slices.
fn bytes_eq(a: &[u8], b: &[u8]) -> (r: bool)
    ensures
        r == (a@ == b@),
{
    if a.len() != b.len() {
        return false;
    }
    let mut i: usize = 0;
    while i < a.len()
        invariant
            a@.len() == b@.len(),
            i <= a@.len(),
            forall|j: int| 0 <= j < i ==> a@[j] == b@[j],
        decreases a@.len() - i,
    {
        if *vstd::slice::slice_index_get(a, i) != *vstd::slice::slice_index_get(b, i) {
            return false;
        }
        i += 1;
    }
    proof {
        assert(a@ =~= b@);
    }
    true
}

/// Collects transport fragments into whole telegram payloads, one pending
/// telegram per in-flight identification number.
///
/// The reassembler never looks at a clock itself: the caller passes a tick
/// value (`now`) into [`Reassembler::ingest`] and [`Reassembler::evict_idle`],
/// and the idle limit compares against those ticks.
#[derive(Debug)]
pub struct Reassembler {
    /// The in-flight telegrams, with pairwise distinct identifications.
    pub pending: Vec<PendingTelegram>,
    /// How many ticks a pending telegram may stay idle before an idle
    /// sweep drops it.
    pub idle_limit: u64,
}

impl Reassembler {
    /// Every pending telegram is well-formed and no two share an
    /// identification.
    pub open spec fn wf(self) -> bool {
        &&& forall|i: int| 0 <= i < self.pending@.len() ==> (#[trigger] self.pending@[i]).wf()
        &&& forall|i: int, j: int|
            0 <= i < j < self.pending@.len() ==> self.pending@[i].identification
                != self.pending@[j].identification
    }

    /// Some pending telegram carries the identification `id`.
    pub open spec fn has_pending(self, id: u32) -> bool {
        exists|i: int|
            0 <= i < self.pending@.len() && (#[trigger] self.pending@[i]).identification == id
    }

    /// A reassembler with no telegram in flight that drops a pending
    /// telegram once more than `idle_limit` ticks pass without a new
    /// fragment for it.
    pub fn new(idle_limit: u64) -> (r: Reassembler)
        ensures
            r.wf(),
            r.pending@ == Seq::<PendingTelegram>::empty(),
            r.idle_limit == idle_limit,
    {
        let r = Reassembler { pending: Vec::new(), idle_limit };
        proof {
            assert(r.pending@ =~= Seq::<PendingTelegram>::empty());
        }
        r
    }

    /// The index of the pending telegram for `id`, if one is in flight.
    fn find_pending(&self, id: u32) -> (r: Option<usize>)
        ensures
            match r {
                Some(i) => i < self.pending@.len() && self.pending@[i as int].identification
                    == id,
                None => !self.has_pending(id),
            },
    {
        let mut i: usize = 0;
        while i < self.pending.len()
            invariant
                i <= self.pending@.len(),
                forall|j: int| 0 <= j < i ==> (#[trigger] self.pending@[j]).identification != id,
            decreases self.pending@.len() - i,
        {
            if self.pending[i].identification == id {
                return Some(i);
            }
            i += 1;
        }
        None
    }

    /// Sorts one fragment into the telegram pending at `id`'s slot, or
    /// completes the telegram.  `now` is the caller's tick for idle
    /// eviction.  The outcome and the exact state change are those of
    /// [`ingest_spec`]; a rejected or duplicate fragment leaves every
    /// pending telegram untouched, and a fragment of one telegram never
    /// disturbs another's state.
    #[verifier::loop_isolation(false)]
    #[verifier::rlimit(100)]
    pub fn ingest(
        &mut self,
        header: &UDPDatagramHeader,
        fragment_payload: &[u8],
        now: u64,
    ) -> (r: FragmentOutcome)
        requires
            old(self).wf(),
        ensures
            final(self).wf(),
            ingest_spec(
                *old(self),
                *final(self),
                header.identification,
                header.total_length,
                header.fragment_offset,
                fragment_payload@,
                now,
                r,
            ),
    {
        let ghost pre = *old(self);
        let id = header.identification;
        let total = header.total_length;
        let off = header.fragment_offset;
        let n = fragment_payload.len();
        let ghost data = fragment_payload@;

        let found = self.find_pending(id);

        // a fragment whose header disagrees with the recorded total length
        // is rejected before anything else
        match found {
            Some(i) => {
                if self.pending[i].total_length != total {
                    proof {
                        assert(length_conflict(pre, id, total, off, n as int));
                    }
                    return FragmentOutcome::LengthMismatchError;
                }
            },
            None => {},
        }
        // so is one whose slice reaches past the claimed total length
        if (n as u64) > (total as u64) || (off as u64) > (total as u64) - (n as u64) {
            return FragmentOutcome::LengthMismatchError;
        }
        proof {
            assert(!length_conflict(pre, id, total, off, n as int)) by {
                assert forall|i2: int|
                    0 <= i2 < pre.pending@.len() && (#[trigger] pre.pending@[i2]).identification
                        == id implies pre.pending@[i2].total_length == total by {
                    match found {
                        Some(i) => {
                            if i2 < i as int {
                                assert(pre.pending@[i2].identification != pre.pending@[
                                i as int].identification);
                            } else if i2 > i as int {
                                assert(pre.pending@[i as int].identification != pre.pending@[
                                i2].identification);
                            }
                        },
                        None => {
                            assert(!pre.has_pending(id));
                        },
                    }
                }
            }
        }

        match found {
            None => {
                if off == 0 && (n as u64) == (total as u64) {
                    // a telegram that arrives whole completes at once
                    let out = vstd::slice::slice_to_vec(fragment_payload);
                    return FragmentOutcome::Complete(out);
                }
                if n == 0 {
                    // an empty slice carries nothing worth recording
                    return FragmentOutcome::NeedsMore;
                }
                let bytes = vstd::slice::slice_to_vec(fragment_payload);
                let mut fragments: Vec<Fragment> = Vec::new();
                fragments.push(Fragment { offset: off, bytes });
                let p = PendingTelegram {
                    identification: id,
                    total_length: total,
                    fragments,
                    bytes_received: n as u32,
                    last_update: now,
                };
                proof {
                    assert(p.frags() =~= seq![(off, data)]);
                    assert(p.frags().drop_last() =~= Seq::<(u32, Seq<u8>)>::empty());
                    assert(frags_size(p.frags().drop_last()) == 0);
                    assert(frags_size(p.frags()) == n);
                    assert(p.wf());
                }
                self.pending.push(p);
                proof {
                    assert(self.pending@.drop_last() =~= pre.pending@);
                }
                return FragmentOutcome::NeedsMore;
            },
            Some(i) => {
                proof {
                    lemma_only_index(pre, id, i as int);
                    assert(pre.has_pending(id));
                }
                let r = self.store_fragment(i, off, total, fragment_payload, now);
                return r;
            },
        }
    }

    /// Handles a fragment of the telegram already pending at index `i`
    /// whose header agrees with the recorded total length and whose range
    /// fits inside it.
    #[verifier::loop_isolation(false)]
    #[verifier::rlimit(100)]
    fn store_fragment(
        &mut self,
        i: usize,
        off: u32,
        total: u32,
        fragment_payload: &[u8],
        now: u64,
    ) -> (r: FragmentOutcome)
        requires
            old(self).wf(),
            i < old(self).pending@.len(),
            old(self).pending@[i as int].total_length == total,
            off + fragment_payload@.len() <= total,
        ensures
            final(self).wf(),
            final(self).idle_limit == old(self).idle_limit,
            ingest_spec_stored(
                *old(self),
                *final(self),
                i as int,
                total,
                off,
                fragment_payload@,
                now,
                r,
            ),
    {
        let ghost pre = *old(self);
        let n = fragment_payload.len();
        let ghost data = fragment_payload@;
        let mut p = self.pending.remove(i);
        let ghost fs = p.frags();

        let (dup, ovl) = scan_conflicts(&p, off, fragment_payload);

        if dup {
            self.pending.insert(i, p);
            proof {
                assert(self.pending@ =~= pre.pending@);
            }
            return FragmentOutcome::DuplicateIgnored;
        }
        if n == 0 {
            self.pending.insert(i, p);
            proof {
                assert(self.pending@ =~= pre.pending@);
            }
            return FragmentOutcome::NeedsMore;
        }
        if ovl {
            self.pending.insert(i, p);
            proof {
                assert(self.pending@ =~= pre.pending@);
            }
            return FragmentOutcome::OverlapError;
        }

        p.add_fragment(off, fragment_payload, now);
        if p.bytes_received == total {
            proof {
                assert(frags_size(p.frags()) == total);
                let k = choose|k: int|
                    #![auto]
                    0 <= k <= fs.len() && p.frags() == fs.insert(k, (off, data));
                lemma_complete_contiguous(fs.insert(k, (off, data)), total as int);
            }
            let out = assemble(&p);
            proof {
                assert(completed_payload(fs, off, data, total as int, out@));
                assert(self.pending@ == pre.pending@.remove(i as int));
            }
            return FragmentOutcome::Complete(out);
        }
        self.pending.insert(i, p);
        proof {
            assert(forall|j2: int|
                0 <= j2 < pre.pending@.len() && j2 != i as int ==> self.pending@[j2]
                    == pre.pending@[j2]);
            assert(self.pending@[i as int] == p);
        }
        return FragmentOutcome::NeedsMore;
    }

    /// Drops every pending telegram that saw no new fragment for more than
    /// `idle_limit` ticks before `now`, and reports each dropped
    /// identification with `ReassemblyTimedOut`.  Telegrams that are not
    /// stale are untouched, so an eviction never corrupts unrelated
    /// reassembly state.
    pub fn evict_idle(&mut self, now: u64) -> (r: Vec<(u32, DecodeError)>)
        requires
            old(self).wf(),
        ensures
            final(self).wf(),
            final(self).idle_limit == old(self).idle_limit,
            final(self).pending@ == retained(old(self).pending@, now, old(self).idle_limit),
            r@ == timed_out(old(self).pending@, now, old(self).idle_limit),
    {
        let limit = self.idle_limit;
        let mut src: Vec<PendingTelegram> = Vec::new();
        core::mem::swap(&mut self.pending, &mut src);
        let ghost orig = src@;
        let ghost mut done: int = 0;
        let mut evicted: Vec<(u32, DecodeError)> = Vec::new();
        while src.len() > 0
            invariant
                0 <= done <= orig.len(),
                src@ == orig.skip(done),
                self.pending@ == retained(orig.take(done), now, limit),
                evicted@ == timed_out(orig.take(done), now, limit),
                self.idle_limit == limit,
            decreases src@.len(),
        {
            let p = src.remove(0);
            proof {
                assert(p == orig[done]);
                assert(src@ =~= orig.skip(done + 1));
            }
            let is_stale = now > limit && p.last_update < now - limit;
            proof {
                assert(is_stale == stale(p, now, limit));
                assert(orig.take(done + 1).drop_last() =~= orig.take(done));
                assert(orig.take(done + 1).last() == orig[done]);
            }
            if is_stale {
                evicted.push((p.identification, DecodeError::ReassemblyTimedOut));
            } else {
                self.pending.push(p);
            }
            proof {
                done = done + 1;
            }
        }
        proof {
            assert(orig.take(done) =~= orig);
            lemma_retained_wf(orig, now, limit);
        }
        evicted
    }
}

} // verus!
