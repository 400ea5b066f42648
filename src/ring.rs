//! Ring slots and the cursor-advance rule over them.
use vstd::prelude::*;
use std::sync::Arc;
use crate::bits::{bit16, lemma_bit16_set};
use crate::buffer::{MediaData, MediaType};

verus! {

/// The index that marks a cursor or a "last of kind" position as unset.
pub const INVALID_INDEX: u32 = 0xffff_ffffu32;

/// One slot of the ring: the frame, the set of consumer slots that have read
/// it (bit `k` for consumer slot `k`), and its insertion sequence number.
#[derive(Debug)]
pub struct DataSample {
    pub reserve_flag: u16,
    pub media_data: Arc<MediaData>,
    pub seq: u64,
}

impl DataSample {
    /// A slot for `data`, read by nobody yet.
    pub fn new(data: Arc<MediaData>) -> (r: DataSample)
        ensures
            r.reserve_flag == 0,
            r.media_data == data,
            r.seq == 0,
    {
        DataSample { reserve_flag: 0, media_data: data, seq: 0 }
    }
}

pub open spec fn is_audio(s: DataSample) -> bool {
    s.media_data.media_type == MediaType::AUDIO
}

/// Any frame that is not audio counts as video.
pub open spec fn is_video(s: DataSample) -> bool {
    !is_audio(s)
}

pub open spec fn is_key(s: DataSample) -> bool {
    is_video(s) && s.media_data.key_frame
}

/// Whether the consumer in slot `b` has read (or skipped) this slot.
pub open spec fn read_by(s: DataSample, b: u16) -> bool {
    bit16(s.reserve_flag, b)
}

pub open spec fn kind_matches(s: DataSample, kind: MediaType) -> bool {
    match kind {
        MediaType::AUDIO => is_audio(s),
        MediaType::VIDEO => is_video(s),
        MediaType::AV => true,
    }
}

/// A slot that the consumer in slot `b` may be handed on a `kind` request.
pub open spec fn eligible(s: DataSample, b: u16, kind: MediaType, key_only: bool) -> bool {
    &&& !read_by(s, b)
    &&& kind_matches(s, kind)
    &&& !(key_only && is_video(s) && !is_key(s))
}

/// The first position at or after `from` holding an eligible slot, or -1.
pub open spec fn first_eligible(
    ring: Seq<DataSample>,
    b: u16,
    from: int,
    kind: MediaType,
    key_only: bool,
) -> int
    decreases ring.len() - from,
{
    if from < 0 || from >= ring.len() {
        -1
    } else if eligible(ring[from], b, kind, key_only) {
        from
    } else {
        first_eligible(ring, b, from + 1, kind, key_only)
    }
}

/// The slot with bit `b` added to its read set.
pub open spec fn mark(s: DataSample, b: u16) -> DataSample {
    DataSample { reserve_flag: s.reserve_flag | (1u16 << b), media_data: s.media_data, seq: s.seq }
}

/// Whether a slot at `i` is passed over, and so marked, when a key-only scan
/// runs over `[lo, hi)`.
pub open spec fn skipped(s: DataSample, i: int, lo: int, hi: int, active: bool) -> bool {
    active && lo <= i < hi && is_video(s) && !is_key(s)
}

/// The ring with every non-key video slot in `[lo, hi)` marked as read by `b`,
/// when `active`.
pub open spec fn skip_mark(ring: Seq<DataSample>, b: u16, lo: int, hi: int, active: bool) -> Seq<
    DataSample,
> {
    Seq::new(
        ring.len(),
        |i: int|
            if skipped(ring[i], i, lo, hi, active) {
                mark(ring[i], b)
            } else {
                ring[i]
            },
    )
}

/// Where a cursor at `from` stands after advancing on a `kind` request: on
/// `from` itself if that slot is eligible, else on the next eligible slot,
/// else where it was.
pub open spec fn advance_pos(
    ring: Seq<DataSample>,
    b: u16,
    from: int,
    kind: MediaType,
    key_only: bool,
) -> int {
    let j = first_eligible(ring, b, from, kind, key_only);
    if j < 0 {
        from
    } else {
        j
    }
}

/// The ring after that advance: when a key-only consumer lands, every non-key
/// video slot it passed over counts as read by it.
pub open spec fn advance_ring(
    ring: Seq<DataSample>,
    b: u16,
    from: int,
    kind: MediaType,
    key_only: bool,
) -> Seq<DataSample> {
    let j = first_eligible(ring, b, from, kind, key_only);
    if j < 0 {
        ring
    } else {
        skip_mark(ring, b, from, j, key_only && kind != MediaType::AUDIO)
    }
}

/// The slot with bit `b` taken out of its read set.
pub open spec fn unmark(s: DataSample, b: u16) -> DataSample {
    DataSample { reserve_flag: s.reserve_flag & !(1u16 << b), media_data: s.media_data, seq: s.seq }
}

/// `c` carries no read mark that `a` lacks, other than marks of `b`.
pub open spec fn marks_by(a: Seq<DataSample>, c: Seq<DataSample>, b: u16) -> bool {
    forall|p: int, k: u16|
        0 <= p < c.len() && k < 16 && #[trigger] read_by(c[p], k) ==> read_by(a[p], k) || k == b
}

/// An advance by the consumer in slot `b` adds marks of `b` only.
pub proof fn lemma_advance_marks(ring: Seq<DataSample>, b: u16, from: int, kind: MediaType, key_only: bool)
    requires
        b < 16,
    ensures
        marks_by(ring, advance_ring(ring, b, from, kind, key_only), b),
{
    let c = advance_ring(ring, b, from, kind, key_only);
    assert forall|p: int, k: u16| 0 <= p < c.len() && k < 16 && #[trigger] read_by(c[p], k) implies read_by(
        ring[p],
        k,
    ) || k == b by {
        lemma_bit16_set(ring[p].reserve_flag, b, k);
    }
}

/// Marking one slot as read by `b` adds a mark of `b` only.
pub proof fn lemma_mark_marks(ring: Seq<DataSample>, j: int, b: u16)
    requires
        b < 16,
        0 <= j < ring.len(),
    ensures
        marks_by(ring, ring.update(j, mark(ring[j], b)), b),
{
    let c = ring.update(j, mark(ring[j], b));
    assert forall|p: int, k: u16| 0 <= p < c.len() && k < 16 && #[trigger] read_by(c[p], k) implies read_by(
        ring[p],
        k,
    ) || k == b by {
        lemma_bit16_set(ring[p].reserve_flag, b, k);
    }
}

/// `marks_by` chains.
pub proof fn lemma_marks_by_trans(a: Seq<DataSample>, c: Seq<DataSample>, d: Seq<DataSample>, b: u16)
    requires
        c.len() == d.len(),
        marks_by(a, c, b),
        marks_by(c, d, b),
    ensures
        marks_by(a, d, b),
{
    assert forall|p: int, k: u16| 0 <= p < d.len() && k < 16 && #[trigger] read_by(d[p], k) implies read_by(
        a[p],
        k,
    ) || k == b by {
        if k != b {
            assert(read_by(c[p], k));
        }
    }
}

/// Frames and sequence numbers never change when read sets do.
pub open spec fn same_frames(a: Seq<DataSample>, c: Seq<DataSample>) -> bool {
    &&& a.len() == c.len()
    &&& forall|i: int|
        #![trigger c[i]]
        0 <= i < a.len() ==> c[i].media_data == a[i].media_data && c[i].seq == a[i].seq
}

/// `first_eligible` finds an eligible slot at or after `from`, or none.
pub proof fn lemma_first_eligible_spec(ring: Seq<DataSample>, b: u16, from: int, kind: MediaType, key_only: bool)
    ensures
        first_eligible(ring, b, from, kind, key_only) == -1 || (0 <= from <= first_eligible(ring, b, from, kind, key_only)
            < ring.len() && eligible(ring[first_eligible(ring, b, from, kind, key_only)], b, kind, key_only)),
    decreases ring.len() - from,
{
    if 0 <= from < ring.len() && !eligible(ring[from], b, kind, key_only) {
        lemma_first_eligible_spec(ring, b, from + 1, kind, key_only);
    }
}

/// The exec form of `eligible`.
pub fn is_eligible(s: &DataSample, b: u16, kind: MediaType, key_only: bool) -> (r: bool)
    requires
        b < 16,
    ensures
        r == eligible(*s, b, kind, key_only),
{
    if (s.reserve_flag >> b) & 1u16 == 1u16 {
        return false;
    }
    let audio = s.media_data.media_type == MediaType::AUDIO;
    let kind_ok = match kind {
        MediaType::AUDIO => audio,
        MediaType::VIDEO => !audio,
        MediaType::AV => true,
    };
    kind_ok && !(key_only && !audio && !s.media_data.key_frame)
}

/// Moves a cursor at `from` as `advance_pos` says, marking the slots that
/// `advance_ring` marks.
pub fn find_receiver_next_index(
    ring: &mut Vec<DataSample>,
    from: u32,
    kind: MediaType,
    b: u16,
    key_only: bool,
) -> (r: u32)
    requires
        b < 16,
        old(ring)@.len() < INVALID_INDEX,
    ensures
        r as int == advance_pos(old(ring)@, b, from as int, kind, key_only),
        final(ring)@ == advance_ring(old(ring)@, b, from as int, kind, key_only),
{
    let len = ring.len();
    if from as usize >= len {
        return from;
    }
    let mut j: usize = from as usize;
    while j < len && !is_eligible(&ring[j], b, kind, key_only)
        invariant
            from <= j <= len,
            len == ring@.len(),
            b < 16,
            first_eligible(ring@, b, j as int, kind, key_only) == first_eligible(
                ring@,
                b,
                from as int,
                kind,
                key_only,
            ),
        decreases len - j,
    {
        j = j + 1;
    }
    if j == len {
        return from;
    }
    if key_only && kind != MediaType::AUDIO {
        let ghost start = ring@;
        let mut i: usize = from as usize;
        while i < j
            invariant
                from <= i <= j < len,
                len == start.len(),
                b < 16,
                ring@ == skip_mark(start, b, from as int, i as int, true),
            decreases j - i,
        {
            let s = &ring[i];
            if s.media_data.media_type != MediaType::AUDIO && !s.media_data.key_frame {
                let flag = s.reserve_flag | (1u16 << b);
                ring[i].reserve_flag = flag;
            }
            i = i + 1;
            assert(ring@ =~= skip_mark(start, b, from as int, i as int, true));
        }
    }
    proof {
        assert(ring@ =~= advance_ring(old(ring)@, b, from as int, kind, key_only));
    }
    j as u32
}

} // verus!
