//! Properties that hold of every dispatcher state and operation.
use vstd::prelude::*;
use crate::bits::{bit16, bit32, lemma_bit16_set, lemma_bit32_and, popcount16};
use crate::buffer::MediaType;
use crate::dispatcher::{
    cleared_bits, notify_result, word_for, attached, cursor_pos, evict_boundary, evict_count, evict_spec, fully_read, lemma_evict_count,
    lemma_advance_pos, notes, notes_for, read_result, read_spec, read_target, state_wf,
    DispatcherState,
};
use std::sync::Arc;
use crate::buffer::MediaData;
use crate::dispatcher::{input_spec, push_spec};
use crate::notifier::{moved, read_position, DataNotifier};
use crate::ring::{
    advance_pos, advance_ring, eligible, first_eligible, is_key, is_video, lemma_first_eligible_spec,
    mark, read_by, DataSample, INVALID_INDEX,
};

verus! {

/// The slot map counts the attached consumers: its population count equals
/// their number, which is at most sixteen.
pub proof fn law_slots_count_consumers(s: DispatcherState)
    requires
        state_wf(s),
    ensures
        popcount16(s.read_flag) == s.cursors.len(),
        s.cursors.len() <= 16,
{
    reveal(state_wf);
}

/// Eviction removes only whole GOPs that every attached consumer has read:
/// each key-frame it removes had been read by every consumer in the slot map.
pub proof fn law_evicted_keys_read_by_all(s: DispatcherState, p: int)
    requires
        state_wf(s),
        s.keys.len() > 0,
        0 <= p < evict_boundary(s),
        is_key(s.ring[p]),
    ensures
        fully_read(s.ring[p], s.read_flag),
{
    reveal(state_wf);
    let cnt = evict_count(s.ring, s.keys, s.read_flag, 0);
    lemma_evict_count(s.ring, s.keys, s.read_flag, 0);
    assert(s.keys[cnt] < s.ring.len());
    let i = choose|i: int| 0 <= i < s.keys.len() && s.keys[i] == p;
    if i >= cnt {
        if i > cnt {
            assert(s.keys[cnt] < s.keys[i]);
        }
    }
    assert(i < cnt);
    assert(fully_read(s.ring[s.keys[i] as int], s.read_flag));
}

/// Eviction of `k` slots shifts without reordering: the ring loses exactly
/// its first `k` slots, and a cursor position `i` at or past `k` becomes
/// `i - k`, on the same frame as before.  (A position before `k` stood on an
/// evicted slot and moves to the oldest retained slot, position 0.)
pub proof fn law_eviction_shifts_positions(s: DispatcherState, j: int)
    requires
        state_wf(s),
        s.keys.len() > 0,
        0 <= j < s.cursors.len(),
    ensures
        ({
            let t = evict_spec(s);
            let k = evict_boundary(s);
            let c = s.cursors[j];
            let d = t.cursors[j];
            &&& k < s.ring.len()
            &&& t.ring.len() == s.ring.len() - k
            &&& forall|p: int| k <= p < s.ring.len() ==> #[trigger] t.ring[p - k] == s.ring[p]
            &&& (c.audio_index != INVALID_INDEX && c.audio_index >= k) ==> d.audio_index == c.audio_index - k
                && t.ring[d.audio_index as int] == s.ring[c.audio_index as int]
            &&& (c.video_index != INVALID_INDEX && c.video_index >= k) ==> d.video_index == c.video_index - k
                && t.ring[d.video_index as int] == s.ring[c.video_index as int]
            &&& (c.audio_index != INVALID_INDEX && c.audio_index < k) ==> d.audio_index == 0
            &&& (c.video_index != INVALID_INDEX && c.video_index < k) ==> d.video_index == 0
            &&& (s.last_audio_index != INVALID_INDEX && s.last_audio_index >= k) ==> t.last_audio_index
                == s.last_audio_index - k
            &&& (s.last_video_index != INVALID_INDEX && s.last_video_index >= k) ==> t.last_video_index
                == s.last_video_index - k
            &&& (s.last_audio_index == INVALID_INDEX || s.last_audio_index < k) ==> t.last_audio_index
                == INVALID_INDEX
            &&& (s.last_video_index == INVALID_INDEX || s.last_video_index < k) ==> t.last_video_index
                == INVALID_INDEX
            &&& c.audio_index == INVALID_INDEX ==> d.audio_index == INVALID_INDEX
            &&& c.video_index == INVALID_INDEX ==> d.video_index == INVALID_INDEX
        }),
{
    reveal(state_wf);
    let cnt = evict_count(s.ring, s.keys, s.read_flag, 0);
    lemma_evict_count(s.ring, s.keys, s.read_flag, 0);
    assert(s.keys[cnt] < s.ring.len());
    assert(crate::dispatcher::in_ring(s.ring, s.cursors[j].audio_index));
}

/// A consumer that has not read the oldest key-frame holds the ring: the
/// next frame is appended, nothing is evicted, and the key list only grows.
pub proof fn law_unread_oldest_key_blocks_eviction(s: DispatcherState, frame: Arc<MediaData>, k: u16)
    requires
        state_wf(s),
        !s.waiting_key_frame,
        k < 16,
        bit16(s.read_flag, k),
        !read_by(s.ring[0], k),
    ensures
        input_spec(s, frame).ring == s.ring.push(DataSample { reserve_flag: 0, media_data: frame, seq: s.next_seq }),
        input_spec(s, frame).keys == (if frame.media_type != MediaType::AUDIO && frame.key_frame {
            s.keys.push(s.ring.len() as u32)
        } else {
            s.keys
        }),
{
    reveal(state_wf);
    let s2 = push_spec(s, frame);
    if frame.media_type != MediaType::AUDIO && frame.key_frame {
        assert(is_key(s.ring[0]));
        let i = choose|i: int| 0 <= i < s.keys.len() && s.keys[i] == 0;
        if i > 0 {
            assert(s.keys[0] < s.keys[i]);
        }
        assert(s2.keys[0] == 0);
        let r = s.ring[0].reserve_flag;
        let f = s.read_flag;
        assert(((f >> k) & 1u16 == 1u16 && (r >> k) & 1u16 != 1u16) ==> r & f != f) by (bit_vector);
        assert(!fully_read(s2.ring[0], s.read_flag));
        assert(evict_count(s2.ring, s2.keys, s2.read_flag, 0) == 0);
        assert(evict_spec(s2).ring =~= s2.ring);
        assert(evict_spec(s2).keys =~= s2.keys);
    }
}

/// A key-only consumer is handed video key-frames only: any video frame a
/// read gives it is a key-frame.
pub proof fn law_key_only_gets_key_frames(s: DispatcherState, id: u32, kind: MediaType)
    requires
        state_wf(s),
        attached(s, id),
        s.cursors[cursor_pos(s, id)].key_only,
        read_result(s, id, kind).0,
        s.ring[read_target(s, cursor_pos(s, id), kind)].media_data.media_type != MediaType::AUDIO,
    ensures
        read_result(s, id, kind).1 matches Some(f) && f.key_frame,
{
    let i = cursor_pos(s, id);
    let c = s.cursors[i];
    let from = crate::notifier::read_position(c, kind);
    lemma_first_eligible_spec(s.ring, c.read_index as u16, from as int, kind, c.key_only);
    let j = read_target(s, i, kind);
    assert(eligible(s.ring[j], c.read_index as u16, kind, c.key_only));
    assert(is_video(s.ring[j]));
}

/// A request that moves its read position moves it to where it was sent.
proof fn lemma_moved_position(n: DataNotifier, kind: MediaType, from: u32, to: u32)
    requires
        read_position(n, kind) == from,
        to != INVALID_INDEX,
    ensures
        read_position(moved(n, kind, from, to), kind) == to,
{
}

/// Frames of one kind reach a consumer in insertion order: when two reads of
/// the same kind by the same consumer follow each other and both hand out a
/// frame, the second frame has the higher sequence number.
pub proof fn law_reads_in_insertion_order(s: DispatcherState, id: u32, kind: MediaType)
    requires
        state_wf(s),
        attached(s, id),
        read_result(s, id, kind).0,
        read_result(read_result(s, id, kind).2, id, kind).0,
    ensures
        ({
            let s2 = read_result(s, id, kind).2;
            let j1 = read_target(s, cursor_pos(s, id), kind);
            let j2 = read_target(s2, cursor_pos(s2, id), kind);
            &&& 0 <= j1 < j2 < s.ring.len()
            &&& s2.ring[j2].media_data == s.ring[j2].media_data
            &&& s.ring[j1].seq < s2.ring[j2].seq
        }),
{
    reveal(state_wf);
    let i = cursor_pos(s, id);
    let c = s.cursors[i];
    let b = c.read_index as u16;
    assert(c.read_index < 16);
    let from = read_position(c, kind);
    let j = read_target(s, i, kind);
    lemma_first_eligible_spec(s.ring, b, from as int, kind, c.key_only);
    assert(from <= j < s.ring.len());
    let ring1 = advance_ring(s.ring, b, from as int, kind, c.key_only);
    let ring2 = ring1.update(j, mark(ring1[j], b));
    let to = advance_pos(ring2, b, j, kind, c.key_only);
    lemma_advance_pos(ring2, b, j, kind, c.key_only);
    let ring3 = advance_ring(ring2, b, j, kind, c.key_only);
    let s2 = read_spec(s, i, kind);
    assert(read_result(s, id, kind).2 == s2);
    let c1 = moved(c, kind, from, j as u32);
    lemma_moved_position(c, kind, from, j as u32);
    lemma_moved_position(c1, kind, j as u32, to as u32);
    let c2 = s2.cursors[i];
    assert(c2 == moved(c1, kind, j as u32, to as u32));
    // the consumer keeps its place in the table
    assert(s2.cursors[i].id == id);
    let i2 = cursor_pos(s2, id);
    if i2 != i {
        if i2 < i {
            assert(s.cursors[i2].id != s.cursors[i].id);
        } else {
            assert(s.cursors[i].id != s.cursors[i2].id);
        }
    }
    assert(i2 == i);
    assert(read_position(c2, kind) == to);
    // the slot just read is read by the consumer from then on
    lemma_bit16_set(ring1[j].reserve_flag, b, b);
    assert(read_by(ring2[j], b));
    lemma_bit16_set(ring2[j].reserve_flag, b, b);
    assert(read_by(ring3[j], b));
    assert(s2.ring == ring3);
    let j2 = read_target(s2, i, kind);
    lemma_first_eligible_spec(ring3, b, to, kind, c.key_only);
    assert(j2 >= to);
    assert(j2 != j);
    assert(ring3[j2].seq == s.ring[j2].seq);
    assert(s.ring[j].seq < s.ring[j2].seq);
}

/// Setting a readiness bit to a value twice is setting it once.
proof fn lemma_word_for_twice(w: u32, k: u32, kind: MediaType, on: bool)
    requires
        k < 16,
    ensures
        word_for(word_for(w, k, kind, on), k, kind, on) == word_for(w, k, kind, on),
{
    let a = (2 * k) as u32;
    let v = (2 * k + 1) as u32;
    assert(((w | (1u32 << a)) | (1u32 << a)) == (w | (1u32 << a))) by (bit_vector);
    assert(((w & !(1u32 << a)) & !(1u32 << a)) == (w & !(1u32 << a))) by (bit_vector);
    assert(((w | (1u32 << v)) | (1u32 << v)) == (w | (1u32 << v))) by (bit_vector);
    assert(((w & !(1u32 << v)) & !(1u32 << v)) == (w & !(1u32 << v))) by (bit_vector);
    assert((((w | (1u32 << v)) | (1u32 << a)) | (1u32 << v)) | (1u32 << a) == (w | (1u32 << v)) | (1u32 << a))
        by (bit_vector);
    assert((((w & !(1u32 << v)) & !(1u32 << a)) & !(1u32 << v)) & !(1u32 << a) == (w & !(1u32 << v)) & !(
    1u32 << a)) by (bit_vector);
}

/// Announcing readiness is idempotent: a second `notify_read_ready` for the
/// same consumer and kind, with nothing in between, leaves the state as the
/// first one left it and gives the same answer.
pub proof fn law_notify_ready_idempotent(s: DispatcherState, id: u32, kind: MediaType)
    requires
        state_wf(s),
    ensures
        notify_result(notify_result(s, id, kind).0, id, kind) == notify_result(s, id, kind),
{
    reveal(state_wf);
    if attached(s, id) {
        let i = cursor_pos(s, id);
        let c = s.cursors[i];
        let b = c.read_index as u16;
        assert(c.read_index < 16);
        let from = read_position(c, kind);
        let j = first_eligible(s.ring, b, from as int, kind, c.key_only);
        lemma_first_eligible_spec(s.ring, b, from as int, kind, c.key_only);
        let (s2, r1) = notify_result(s, id, kind);
        let to = advance_pos(s.ring, b, from as int, kind, c.key_only);
        assert(s2.cursors[i].id == id);
        let i2 = cursor_pos(s2, id);
        if i2 != i {
            if i2 < i {
                assert(s.cursors[i2].id != s.cursors[i].id);
            } else {
                assert(s.cursors[i].id != s.cursors[i2].id);
            }
        }
        assert(i2 == i);
        let c2 = s2.cursors[i];
        if j >= 0 {
            lemma_moved_position(c, kind, from, j as u32);
            assert(s2.ring[j] == s.ring[j]);
            assert(first_eligible(s2.ring, b, j, kind, c.key_only) == j);
            assert(advance_ring(s2.ring, b, j, kind, c.key_only) =~= s2.ring);
        } else {
            assert(s2.ring == s.ring);
        }
        assert(read_position(c2, kind) == to);
        lemma_word_for_twice(s.recv_ref, c.read_index, kind, true);
        lemma_word_for_twice(s.data_ref, c.read_index, kind, r1);
        assert(s2.cursors.update(i, moved(c2, kind, to as u32, to as u32)) =~= s2.cursors);
    }
}

/// An advance never takes a read mark away from the consumer that advances.
proof fn lemma_advance_keeps_read(ring: Seq<DataSample>, b: u16, from: int, kind: MediaType, key_only: bool, p: int)
    requires
        b < 16,
        0 <= p < ring.len(),
        read_by(ring[p], b),
    ensures
        read_by(advance_ring(ring, b, from, kind, key_only)[p], b),
{
    lemma_bit16_set(ring[p].reserve_flag, b, b);
}

/// Frames of one kind reach a consumer in insertion order through the
/// handshake as well: a read, the renewed readiness announcement that
/// follows it, the withdrawal of the consumer's bits before the next read,
/// and that next read.  When both reads hand out a frame, the second has
/// the higher sequence number.
pub proof fn law_handshake_reads_in_order(s: DispatcherState, id: u32, kind: MediaType)
    requires
        state_wf(s),
        attached(s, id),
        read_result(s, id, kind).0,
        read_result(
            cleared_bits(
                notify_result(read_result(s, id, kind).2, id, kind).0,
                s.cursors[cursor_pos(s, id)].read_index,
                kind,
            ),
            id,
            kind,
        ).0,
    ensures
        ({
            let s2 = read_result(s, id, kind).2;
            let s4 = cleared_bits(notify_result(s2, id, kind).0, s.cursors[cursor_pos(s, id)].read_index, kind);
            let j1 = read_target(s, cursor_pos(s, id), kind);
            let j2 = read_target(s4, cursor_pos(s4, id), kind);
            &&& 0 <= j1 < j2 < s.ring.len()
            &&& s4.ring[j2].media_data == s.ring[j2].media_data
            &&& s.ring[j1].seq < s4.ring[j2].seq
        }),
{
    reveal(state_wf);
    let i = cursor_pos(s, id);
    let c = s.cursors[i];
    let b = c.read_index as u16;
    assert(c.read_index < 16);
    let from = read_position(c, kind);
    let j = read_target(s, i, kind);
    lemma_first_eligible_spec(s.ring, b, from as int, kind, c.key_only);
    let ring1 = advance_ring(s.ring, b, from as int, kind, c.key_only);
    let ring2 = ring1.update(j, mark(ring1[j], b));
    let to = advance_pos(ring2, b, j, kind, c.key_only);
    lemma_advance_pos(ring2, b, j, kind, c.key_only);
    let s2 = read_spec(s, i, kind);
    let c1 = moved(c, kind, from, j as u32);
    lemma_moved_position(c, kind, from, j as u32);
    lemma_moved_position(c1, kind, j as u32, to as u32);
    assert(s2.cursors[i].id == id);
    let i2 = cursor_pos(s2, id);
    if i2 != i {
        if i2 < i {
            assert(s.cursors[i2].id != s.cursors[i].id);
        } else {
            assert(s.cursors[i].id != s.cursors[i2].id);
        }
    }
    assert(i2 == i);
    lemma_bit16_set(ring1[j].reserve_flag, b, b);
    lemma_advance_keeps_read(ring2, b, j, kind, c.key_only, j);
    // the renewed announcement advances from where the read left the cursor
    let c2 = s2.cursors[i];
    assert(read_position(c2, kind) == to);
    let ring3 = s2.ring;
    let to2 = advance_pos(ring3, b, to, kind, c.key_only);
    lemma_advance_pos(ring3, b, to, kind, c.key_only);
    let s3 = notify_result(s2, id, kind).0;
    assert(s3.cursors[i].id == id);
    let i3 = cursor_pos(s3, id);
    if i3 != i {
        if i3 < i {
            assert(s.cursors[i3].id != s.cursors[i].id);
        } else {
            assert(s.cursors[i].id != s.cursors[i3].id);
        }
    }
    assert(i3 == i);
    lemma_moved_position(c2, kind, to as u32, to2 as u32);
    lemma_advance_keeps_read(ring3, b, to, kind, c.key_only, j);
    let s4 = cleared_bits(s3, c.read_index, kind);
    assert(s4.ring == s3.ring && s4.cursors == s3.cursors);
    let i4 = cursor_pos(s4, id);
    assert(i4 == i);
    let ring4 = s4.ring;
    assert(read_by(ring4[j], b));
    let j2 = read_target(s4, i, kind);
    lemma_first_eligible_spec(ring4, b, to2, kind, c.key_only);
    assert(j2 >= to2);
    assert(j2 != j);
    assert(ring4[j2].seq == s.ring[j2].seq);
    assert(s.ring[j].seq < s.ring[j2].seq);
}

/// Two consumers that have read the same slots find the same first
/// eligible slot from the same position.
proof fn lemma_first_eligible_same(
    ring: Seq<DataSample>,
    b1: u16,
    b2: u16,
    from: int,
    kind: MediaType,
    key_only: bool,
)
    requires
        forall|p: int| 0 <= p < ring.len() ==> #[trigger] read_by(ring[p], b1) == read_by(ring[p], b2),
    ensures
        first_eligible(ring, b1, from, kind, key_only) == first_eligible(ring, b2, from, kind, key_only),
    decreases ring.len() - from,
{
    if 0 <= from < ring.len() {
        assert(read_by(ring[from], b1) == read_by(ring[from], b2));
        lemma_first_eligible_same(ring, b1, b2, from + 1, kind, key_only);
    }
}

/// Consumers in step see the same stream: two consumers whose cursors stand
/// at the same read position for `kind`, with the same key-only mode, and
/// which have read exactly the same slots, are handed the same frame (or
/// both nothing) by a `kind` read.
pub proof fn law_consumers_in_step_read_alike(s: DispatcherState, id1: u32, id2: u32, kind: MediaType)
    requires
        state_wf(s),
        attached(s, id1),
        attached(s, id2),
        read_position(s.cursors[cursor_pos(s, id1)], kind) == read_position(s.cursors[cursor_pos(s, id2)], kind),
        s.cursors[cursor_pos(s, id1)].key_only == s.cursors[cursor_pos(s, id2)].key_only,
        forall|p: int|
            0 <= p < s.ring.len() ==> #[trigger] read_by(s.ring[p], s.cursors[cursor_pos(s, id1)].read_index as u16)
                == read_by(s.ring[p], s.cursors[cursor_pos(s, id2)].read_index as u16),
    ensures
        read_result(s, id1, kind).0 == read_result(s, id2, kind).0,
        read_result(s, id1, kind).1 == read_result(s, id2, kind).1,
{
    let c1 = s.cursors[cursor_pos(s, id1)];
    let c2 = s.cursors[cursor_pos(s, id2)];
    lemma_first_eligible_same(
        s.ring,
        c1.read_index as u16,
        c2.read_index as u16,
        read_position(c1, kind) as int,
        kind,
        c1.key_only,
    );
}

/// `notes` holds every wakeup of every cursor it scans.
proof fn lemma_notes_contains(cs: Seq<DataNotifier>, n: u32, j: int, x: (u32, MediaType))
    requires
        0 <= j < cs.len(),
        notes_for(cs[j], n).contains(x),
    ensures
        notes(cs, n).contains(x),
    decreases cs.len(),
{
    let rest = cs.drop_last();
    if j == cs.len() - 1 {
        let k = choose|k: int| 0 <= k < notes_for(cs[j], n).len() && notes_for(cs[j], n)[k] == x;
        assert(notes(cs, n)[notes(rest, n).len() + k] == x);
    } else {
        assert(rest[j] == cs[j]);
        lemma_notes_contains(rest, n, j, x);
        let k = choose|k: int| 0 <= k < notes(rest, n).len() && notes(rest, n)[k] == x;
        assert(notes(cs, n)[k] == x);
    }
}

/// Every bit set in both readiness words yields a wakeup in the next pass
/// of the dispatch loop: the consumer in that bit's slot is woken on its
/// combined waitline if it is mixed, else on the bit's own stream.
pub proof fn law_ready_bits_are_notified(s: DispatcherState, b: u32)
    requires
        state_wf(s),
        b < 32,
        bit32(s.data_ref & s.recv_ref, b),
    ensures
        exists|j: int|
            0 <= j < s.cursors.len() && #[trigger] s.cursors[j].read_index == b / 2 && notes(
                s.cursors,
                s.data_ref & s.recv_ref,
            ).contains(
                (
                    s.cursors[j].id,
                    if s.cursors[j].mixed {
                        MediaType::AV
                    } else if b % 2 == 0 {
                        MediaType::AUDIO
                    } else {
                        MediaType::VIDEO
                    },
                ),
            ),
{
    reveal(state_wf);
    let n = s.data_ref & s.recv_ref;
    lemma_bit32_and(s.data_ref, s.recv_ref, b);
    assert(bit16(s.read_flag, (b / 2) as u16));
    let j = choose|j: int| 0 <= j < s.cursors.len() && s.cursors[j].read_index == (b / 2) as u16;
    let c = s.cursors[j];
    let x = (c.id, if c.mixed { MediaType::AV } else if b % 2 == 0 { MediaType::AUDIO } else { MediaType::VIDEO });
    if b % 2 == 0 {
        assert(b == 2 * c.read_index);
    } else {
        assert(b == 2 * c.read_index + 1);
    }
    let f = notes_for(c, n);
    if c.mixed {
        assert(f[0] == x);
    } else if b % 2 == 0 {
        assert(f[0] == x);
    } else {
        assert(f[f.len() - 1] == x);
    }
    lemma_notes_contains(s.cursors, n, j, x);
}

} // verus!
