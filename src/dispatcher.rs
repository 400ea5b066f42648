//! The dispatcher: the shared ring, the cursor table, the readiness words and
//! the GOP-aligned eviction that keeps the ring bounded.
use vstd::prelude::*;
use std::sync::Arc;
use crate::bits::{
    bit16, bit32, lemma_bit16_clear, lemma_bit16_full, lemma_bit16_set, lemma_bit32_set,
    lemma_popcount_bound, lemma_word_with, popcount16, test_bit16, with_bit16, with_bit32, without_bit16, word_with,
};
use crate::buffer::{Identity, MediaData, MediaType};
use crate::notifier::{moved, read_position, DataNotifier};
use crate::receiver::{Receiver, ReceiverState};
use crate::ring::{
    advance_pos, advance_ring, eligible, find_receiver_next_index, first_eligible, is_audio,
    is_eligible, is_key, lemma_advance_marks, lemma_first_eligible_spec, lemma_mark_marks,
    lemma_marks_by_trans, mark, marks_by, read_by, same_frames, unmark,
    DataSample, INVALID_INDEX,
};

verus! {

/// Why a registry operation was refused.
#[derive(Clone, Copy, Debug, PartialEq, Eq, Structural)]
pub enum DispatchError {
    /// All sixteen consumer slots are taken.
    CapacityExceeded,
    /// No consumer with that identity is attached.
    NotAttached,
}

/// Everything the dispatcher holds, as plain values.
pub struct DispatcherState {
    pub id: u32,
    pub running: bool,
    pub continue_notify: bool,
    pub cursors: Seq<DataNotifier>,
    pub recv_ref: u32,
    pub data_ref: u32,
    pub ring: Seq<DataSample>,
    pub keys: Seq<u32>,
    pub audio_activate: bool,
    pub video_activate: bool,
    pub waiting_key_frame: bool,
    pub read_flag: u16,
    pub max_capacity: u32,
    pub capacity_increment: u32,
    pub data_mode: MediaType,
    pub last_audio_index: u32,
    pub last_video_index: u32,
    pub next_seq: u64,
}

/// `keys` lists, in increasing order, exactly the positions of the ring's
/// video key-frames.
pub open spec fn keys_exact(ring: Seq<DataSample>, keys: Seq<u32>) -> bool {
    &&& forall|i: int| 0 <= i < keys.len() ==> #[trigger] keys[i] < ring.len() && is_key(ring[keys[i] as int])
    &&& forall|i: int, j: int| 0 <= i < j < keys.len() ==> #[trigger] keys[i] < #[trigger] keys[j]
    &&& forall|p: int| 0 <= p < ring.len() && #[trigger] is_key(ring[p]) ==> exists|i: int| 0 <= i < keys.len() && keys[i] == p
}

/// A position is unset or inside the ring.
pub open spec fn in_ring(ring: Seq<DataSample>, p: u32) -> bool {
    p == INVALID_INDEX || p < ring.len()
}

/// Consumer identities and slots are distinct, slots are below sixteen, and
/// `read_flag` holds exactly the slots in use.
pub open spec fn registry_ok(cursors: Seq<DataNotifier>, read_flag: u16) -> bool {
    &&& cursors.len() <= 16
    &&& forall|i: int| 0 <= i < cursors.len() ==> #[trigger] cursors[i].read_index < 16
    &&& forall|i: int, j: int| 0 <= i < j < cursors.len() ==> #[trigger] cursors[i].id != #[trigger] cursors[j].id
    &&& forall|i: int, j: int|
        0 <= i < j < cursors.len() ==> #[trigger] cursors[i].read_index != #[trigger] cursors[j].read_index
    &&& forall|k: u16| k < 16 ==> (#[trigger] bit16(read_flag, k) <==> exists|i: int|
        0 <= i < cursors.len() && cursors[i].read_index == k)
    &&& popcount16(read_flag) == cursors.len()
}

/// A readiness word has bits only for slots in use.
pub open spec fn word_ok(word: u32, read_flag: u16) -> bool {
    forall|i: u32| i < 32 && #[trigger] bit32(word, i) ==> bit16(read_flag, (i / 2) as u16)
}

/// Only consumers whose slot is in use have read marks in the ring.
pub open spec fn marks_ok(ring: Seq<DataSample>, read_flag: u16) -> bool {
    forall|p: int, k: u16| 0 <= p < ring.len() && k < 16 && #[trigger] read_by(ring[p], k) ==> bit16(read_flag, k)
}

/// The ring's sequence numbers rise strictly and stay below `next_seq`.
pub open spec fn seqs_ok(ring: Seq<DataSample>, next_seq: u64) -> bool {
    &&& forall|i: int, j: int| 0 <= i < j < ring.len() ==> #[trigger] ring[i].seq < #[trigger] ring[j].seq
    &&& forall|i: int| 0 <= i < ring.len() ==> #[trigger] ring[i].seq < next_seq
}

/// The dispatcher's invariant.
#[verifier::opaque]
pub open spec fn state_wf(s: DispatcherState) -> bool {
    &&& s.ring.len() < INVALID_INDEX
    &&& keys_exact(s.ring, s.keys)
    &&& s.ring.len() > 0 ==> is_key(s.ring[0])
    &&& (s.waiting_key_frame <==> s.ring.len() == 0)
    &&& in_ring(s.ring, s.last_audio_index)
    &&& in_ring(s.ring, s.last_video_index)
    &&& registry_ok(s.cursors, s.read_flag)
    &&& forall|i: int|
        0 <= i < s.cursors.len() ==> in_ring(s.ring, #[trigger] s.cursors[i].audio_index) && in_ring(
            s.ring,
            s.cursors[i].video_index,
        )
    &&& word_ok(s.data_ref, s.read_flag)
    &&& word_ok(s.recv_ref, s.read_flag)
    &&& seqs_ok(s.ring, s.next_seq)
    &&& marks_ok(s.ring, s.read_flag)
}

/// Whether consumer `id` is attached.
pub open spec fn attached(s: DispatcherState, id: u32) -> bool {
    exists|i: int| 0 <= i < s.cursors.len() && s.cursors[i].id == id
}

/// The position of consumer `id` in the cursor table.
pub open spec fn cursor_pos(s: DispatcherState, id: u32) -> int {
    choose|i: int| 0 <= i < s.cursors.len() && s.cursors[i].id == id
}

/// The lowest clear bit of `x` at or above `i`, or 16.
pub open spec fn lowest_clear_from(x: u16, i: u16) -> u16
    decreases 16 - i,
{
    if i >= 16 {
        16
    } else if !bit16(x, i) {
        i
    } else {
        lowest_clear_from(x, (i + 1) as u16)
    }
}

/// The lowest free consumer slot of `read_flag`.
pub open spec fn lowest_clear(x: u16) -> u16 {
    lowest_clear_from(x, 0)
}

/// The readiness bit of slot `k` for a stream: audio is bit `2k`, video `2k+1`.
pub open spec fn channel_bit(k: u32, kind: MediaType) -> u32 {
    if kind == MediaType::AUDIO {
        (2 * k) as u32
    } else {
        (2 * k + 1) as u32
    }
}

/// A readiness word with slot `k`'s bit for `kind` set to `on`; a combined
/// kind touches both bits.
pub open spec fn word_for(word: u32, k: u32, kind: MediaType, on: bool) -> u32 {
    match kind {
        MediaType::AUDIO => word_with(word, (2 * k) as u32, on),
        MediaType::VIDEO => word_with(word, (2 * k + 1) as u32, on),
        MediaType::AV => word_with(word_with(word, (2 * k + 1) as u32, on), (2 * k) as u32, on),
    }
}

/// The first audio position at or after `i`, or -1.
pub open spec fn first_audio_from(ring: Seq<DataSample>, i: int) -> int
    decreases ring.len() - i,
{
    if i < 0 || i >= ring.len() {
        -1
    } else if is_audio(ring[i]) {
        i
    } else {
        first_audio_from(ring, i + 1)
    }
}

/// Where a newly attached consumer starts on each stream, as
/// `(audio_index, video_index)`: nowhere on an empty ring; at the newest slot
/// in audio-only mode; else on the newest key-frame for video and the first
/// audio after it; else on the newest audio.
pub open spec fn seeded(s: DispatcherState) -> (u32, u32) {
    if s.ring.len() == 0 {
        (INVALID_INDEX, INVALID_INDEX)
    } else if s.data_mode == MediaType::AUDIO {
        ((s.ring.len() - 1) as u32, INVALID_INDEX)
    } else if s.keys.len() > 0 {
        let back = s.keys.last();
        let a = first_audio_from(s.ring, back + 1);
        (if a < 0 { INVALID_INDEX } else { a as u32 }, back)
    } else {
        (s.last_audio_index, INVALID_INDEX)
    }
}

/// The state after consumer `id` (key-only and mixed as given) takes slot
/// `k`.
pub open spec fn attach_spec(s: DispatcherState, id: u32, key_only: bool, mixed: bool, k: u16) -> DispatcherState {
    let (a, v) = seeded(s);
    let audio_ready = s.ring.len() > 0 && a != INVALID_INDEX;
    let video_ready = s.ring.len() > 0 && s.data_mode != MediaType::AUDIO && s.keys.len() > 0;
    DispatcherState {
        read_flag: s.read_flag | (1u16 << k),
        cursors: s.cursors.push(
            DataNotifier {
                id,
                audio_index: a,
                video_index: v,
                read_index: k as u32,
                mixed,
                key_only,
            },
        ),
        data_ref: word_with(word_with(s.data_ref, (2 * k) as u32, audio_ready), (2 * k + 1) as u32, video_ready),
        audio_activate: if s.ring.len() == 0 || (s.data_mode != MediaType::AUDIO
            && s.last_audio_index == INVALID_INDEX) {
            true
        } else {
            s.audio_activate
        },
        video_activate: if s.ring.len() == 0 {
            true
        } else {
            s.video_activate
        },
        ..s
    }
}

/// The state after consumer `id`, at table position `i`, detaches: its
/// cursor goes, its slot is freed, and its read marks leave the ring, so that
/// the next holder of the slot starts with nothing read.
pub open spec fn detach_spec(s: DispatcherState, i: int) -> DispatcherState {
    let k = s.cursors[i].read_index;
    DispatcherState {
        ring: s.ring.map_values(|x: DataSample| unmark(x, k as u16)),
        cursors: s.cursors.remove(i),
        read_flag: s.read_flag & !(1u16 << (k as u16)),
        data_ref: word_for(s.data_ref, k, MediaType::AV, false),
        recv_ref: word_for(s.recv_ref, k, MediaType::AV, false),
        continue_notify: true,
        ..s
    }
}

/// What `notify_read_ready` does for the consumer at table position `i`: the
/// consumer is marked ready to receive `kind`; its cursor advances; the data
/// bit says whether the slot it landed on can be handed to it; a wakeup is
/// requested if so.  The second component is that answer.
pub open spec fn notify_ready_spec(s: DispatcherState, i: int, kind: MediaType) -> (DispatcherState, bool) {
    let c = s.cursors[i];
    let b = c.read_index as u16;
    let from = read_position(c, kind);
    let ring = advance_ring(s.ring, b, from as int, kind, c.key_only);
    let to = advance_pos(s.ring, b, from as int, kind, c.key_only);
    let avail = 0 <= to < ring.len() && eligible(ring[to], b, kind, c.key_only);
    (
        DispatcherState {
            ring,
            cursors: s.cursors.update(i, moved(c, kind, from, to as u32)),
            recv_ref: word_for(s.recv_ref, c.read_index, kind, true),
            data_ref: word_for(s.data_ref, c.read_index, kind, avail),
            continue_notify: s.continue_notify || avail,
            ..s
        },
        avail,
    )
}

/// The slot that a `kind` read by the consumer at table position `i` hands
/// out: the first eligible one at or after its read position, or -1.
pub open spec fn read_target(s: DispatcherState, i: int, kind: MediaType) -> int {
    let c = s.cursors[i];
    let from = read_position(c, kind);
    if from < s.ring.len() {
        first_eligible(s.ring, c.read_index as u16, from as int, kind, c.key_only)
    } else {
        -1
    }
}

/// The state after the consumer at table position `i` reads slot
/// `read_target` (which must exist): the skipped non-key video and the slot
/// itself become read by it, and its cursor moves past the slot.
pub open spec fn read_spec(s: DispatcherState, i: int, kind: MediaType) -> DispatcherState {
    let c = s.cursors[i];
    let b = c.read_index as u16;
    let from = read_position(c, kind);
    let j = read_target(s, i, kind);
    let ring1 = advance_ring(s.ring, b, from as int, kind, c.key_only);
    let ring2 = ring1.update(j, mark(ring1[j], b));
    let c1 = moved(c, kind, from, j as u32);
    let to = advance_pos(ring2, b, j, kind, c.key_only);
    DispatcherState {
        ring: advance_ring(ring2, b, j, kind, c.key_only),
        cursors: s.cursors.update(i, moved(c1, kind, j as u32, to as u32)),
        ..s
    }
}

/// Whether a slot has been read by every consumer in `read_flag`.
pub open spec fn fully_read(s: DataSample, read_flag: u16) -> bool {
    s.reserve_flag & read_flag == read_flag
}

/// How many leading key-frames (never the newest one) every attached consumer
/// has read, counting from the `i`th.
pub open spec fn evict_count(ring: Seq<DataSample>, keys: Seq<u32>, read_flag: u16, i: int) -> int
    decreases keys.len() - i,
{
    if i < 0 || i + 1 >= keys.len() {
        i
    } else if fully_read(ring[keys[i] as int], read_flag) {
        evict_count(ring, keys, read_flag, i + 1)
    } else {
        i
    }
}

/// A "last of kind" position after the first `n` slots are evicted.
pub open spec fn shift_last(p: u32, n: u32) -> u32 {
    if p == INVALID_INDEX || p < n {
        INVALID_INDEX
    } else {
        (p - n) as u32
    }
}

/// A cursor position after the first `n` slots are evicted: a cursor that
/// stood on an evicted slot moves to the oldest retained one.
pub open spec fn shift_cursor(p: u32, n: u32) -> u32 {
    if p == INVALID_INDEX {
        INVALID_INDEX
    } else if p < n {
        0
    } else {
        (p - n) as u32
    }
}

/// The position before which everything is evicted: the oldest key-frame
/// that some attached consumer has not read yet, or else the newest one.
pub open spec fn evict_boundary(s: DispatcherState) -> u32 {
    s.keys[evict_count(s.ring, s.keys, s.read_flag, 0)]
}

/// GOP-aligned eviction: every slot before `evict_boundary` leaves the ring,
/// and every live position shifts down by that many.
pub open spec fn evict_spec(s: DispatcherState) -> DispatcherState {
    let cnt = evict_count(s.ring, s.keys, s.read_flag, 0);
    let n = s.keys[cnt];
    DispatcherState {
        ring: s.ring.subrange(n as int, s.ring.len() as int),
        keys: s.keys.subrange(cnt, s.keys.len() as int).map_values(|k: u32| (k - n) as u32),
        last_audio_index: shift_last(s.last_audio_index, n),
        last_video_index: shift_last(s.last_video_index, n),
        cursors: s.cursors.map_values(
            |c: DataNotifier|
                DataNotifier {
                    audio_index: shift_cursor(c.audio_index, n),
                    video_index: shift_cursor(c.video_index, n),
                    ..c
                },
        ),
        ..s
    }
}

/// The flush before the first key-frame: the ring empties and every
/// position is unset, ready to be seeded again.
pub open spec fn flush_spec(s: DispatcherState) -> DispatcherState {
    DispatcherState {
        ring: Seq::empty(),
        keys: Seq::empty(),
        cursors: s.cursors.map_values(
            |c: DataNotifier| DataNotifier { audio_index: INVALID_INDEX, video_index: INVALID_INDEX, ..c },
        ),
        audio_activate: true,
        video_activate: true,
        last_audio_index: INVALID_INDEX,
        last_video_index: INVALID_INDEX,
        waiting_key_frame: true,
        ..s
    }
}

/// Whether a frame is a video key-frame.
pub open spec fn frame_is_key(f: MediaData) -> bool {
    f.media_type != MediaType::AUDIO && f.key_frame
}

/// The ring with `frame` appended under the next sequence number.
pub open spec fn push_spec(s: DispatcherState, frame: Arc<MediaData>) -> DispatcherState {
    DispatcherState {
        ring: s.ring.push(DataSample { reserve_flag: 0, media_data: frame, seq: s.next_seq }),
        keys: if frame_is_key(*frame) {
            s.keys.push(s.ring.len() as u32)
        } else {
            s.keys
        },
        next_seq: (s.next_seq + 1) as u64,
        ..s
    }
}

/// Whether a consumer is told of a new frame of `kind`: always for audio;
/// for video unless it is key-only and the frame is not a key-frame.
pub open spec fn wants(c: DataNotifier, kind: MediaType, key: bool) -> bool {
    kind == MediaType::AUDIO || !c.key_only || key
}

/// The data bits raised for a new frame of `kind`: each interested
/// consumer's bit for that stream.
pub open spec fn data_bits(cs: Seq<DataNotifier>, kind: MediaType, key: bool) -> u32
    decreases cs.len(),
{
    if cs.len() == 0 {
        0
    } else {
        let rest = data_bits(cs.drop_last(), kind, key);
        if wants(cs.last(), kind, key) {
            rest | (1u32 << channel_bit(cs.last().read_index, kind))
        } else {
            rest
        }
    }
}

/// A cursor seeded onto the new slot `index` of `kind`: it moves there only
/// when its position for that stream is unset.  A cursor that has a position
/// keeps it, so it still reaches every frame after it.
pub open spec fn activated(c: DataNotifier, index: u32, kind: MediaType) -> DataNotifier {
    if kind == MediaType::VIDEO {
        if c.video_index == INVALID_INDEX {
            DataNotifier { video_index: index, ..c }
        } else {
            c
        }
    } else {
        if c.audio_index == INVALID_INDEX {
            DataNotifier { audio_index: index, ..c }
        } else {
            c
        }
    }
}

/// Every cursor seeded onto `index` for `kind`, and that stream's
/// activation flag lowered.
pub open spec fn activate_spec(s: DispatcherState, index: u32, kind: MediaType) -> DispatcherState {
    DispatcherState {
        cursors: s.cursors.map_values(|c: DataNotifier| activated(c, index, kind)),
        video_activate: if kind == MediaType::VIDEO { false } else { s.video_activate },
        audio_activate: if kind == MediaType::VIDEO { s.audio_activate } else { false },
        ..s
    }
}

/// What `input_data` does with `frame`.  Before the first key-frame nothing
/// is kept.  The first key-frame flushes the ring.  The frame is appended; a
/// key-frame evicts whole GOPs that every consumer has read and re-arms
/// seeding.  The newest position of its stream and the interested
/// consumers' data bits are updated, cursors waiting for a seed are seeded,
/// and the dispatch loop is woken.
pub open spec fn input_spec(s: DispatcherState, frame: Arc<MediaData>) -> DispatcherState {
    let key = frame_is_key(*frame);
    let audio = frame.media_type == MediaType::AUDIO;
    if s.waiting_key_frame && !key {
        s
    } else {
        let s1 = if s.waiting_key_frame {
            DispatcherState { waiting_key_frame: false, ..flush_spec(s) }
        } else {
            s
        };
        let s2 = push_spec(s1, frame);
        let s3 = if key {
            DispatcherState { audio_activate: true, video_activate: true, ..evict_spec(s2) }
        } else {
            s2
        };
        let last = (s3.ring.len() - 1) as u32;
        let s4 = if audio {
            DispatcherState {
                last_audio_index: last,
                data_ref: s3.data_ref | data_bits(s3.cursors, MediaType::AUDIO, false),
                ..s3
            }
        } else {
            DispatcherState {
                last_video_index: last,
                data_ref: s3.data_ref | data_bits(s3.cursors, MediaType::VIDEO, key),
                ..s3
            }
        };
        let s5 = if s4.audio_activate && audio {
            activate_spec(s4, last, MediaType::AUDIO)
        } else {
            s4
        };
        let s6 = if key && s5.video_activate {
            activate_spec(s5, last, MediaType::VIDEO)
        } else {
            s5
        };
        DispatcherState { continue_notify: true, ..s6 }
    }
}

/// What `read_buffer_data(id, kind)` returns and leaves behind.
pub open spec fn read_result(s: DispatcherState, id: u32, kind: MediaType) -> (bool, Option<Arc<MediaData>>, DispatcherState) {
    if !attached(s, id) {
        (false, None, s)
    } else {
        let i = cursor_pos(s, id);
        let j = read_target(s, i, kind);
        if j < 0 {
            (false, None, s)
        } else {
            (true, Some(s.ring[j].media_data), read_spec(s, i, kind))
        }
    }
}

/// What `notify_read_ready(id, kind)` leaves behind and returns.
pub open spec fn notify_result(s: DispatcherState, id: u32, kind: MediaType) -> (DispatcherState, bool) {
    if !attached(s, id) {
        (s, false)
    } else {
        notify_ready_spec(s, cursor_pos(s, id), kind)
    }
}

/// The state after slot `k`'s data and receive bits for `kind` are withdrawn.
pub open spec fn cleared_bits(s: DispatcherState, k: u32, kind: MediaType) -> DispatcherState {
    if k < 16 {
        DispatcherState {
            data_ref: word_for(s.data_ref, k, kind, false),
            recv_ref: word_for(s.recv_ref, k, kind, false),
            ..s
        }
    } else {
        s
    }
}

/// The dispatcher.  All of its state is guarded by the caller's single lock;
/// the readiness words `data_ref` (data waiting) and `recv_ref` (consumer
/// waiting) together say whom the dispatch loop wakes.
#[derive(Debug)]
pub struct Dispatcher {
    id: u32,
    running: bool,
    continue_notify: bool,
    notifiers: Vec<DataNotifier>,
    recv_ref: u32,
    data_ref: u32,
    circular_buffer: Vec<DataSample>,
    key_index: Vec<u32>,
    audio_activate: bool,
    video_activate: bool,
    waiting_key_frame: bool,
    read_flag: u16,
    max_capacity: u32,
    capacity_increment: u32,
    data_mode: MediaType,
    last_audio_index: u32,
    last_video_index: u32,
    next_seq: u64,
}

impl View for Dispatcher {
    type V = DispatcherState;

    closed spec fn view(&self) -> DispatcherState {
        DispatcherState {
            id: self.id,
            running: self.running,
            continue_notify: self.continue_notify,
            cursors: self.notifiers@,
            recv_ref: self.recv_ref,
            data_ref: self.data_ref,
            ring: self.circular_buffer@,
            keys: self.key_index@,
            audio_activate: self.audio_activate,
            video_activate: self.video_activate,
            waiting_key_frame: self.waiting_key_frame,
            read_flag: self.read_flag,
            max_capacity: self.max_capacity,
            capacity_increment: self.capacity_increment,
            data_mode: self.data_mode,
            last_audio_index: self.last_audio_index,
            last_video_index: self.last_video_index,
            next_seq: self.next_seq,
        }
    }
}

impl Identity for Dispatcher {
    fn get_id(&self) -> u32 {
        self.id
    }
}

impl Dispatcher {
    pub open spec fn inv(&self) -> bool {
        state_wf(self@)
    }

    /// The state of a dispatcher made with these settings.
    pub open spec fn initial(max_capacity: u32, capacity_increment: u32, data_mode: MediaType) -> DispatcherState {
        DispatcherState {
            id: 1,
            running: false,
            continue_notify: false,
            cursors: Seq::empty(),
            recv_ref: 0,
            data_ref: 0,
            ring: Seq::empty(),
            keys: Seq::empty(),
            audio_activate: false,
            video_activate: false,
            waiting_key_frame: true,
            read_flag: 0,
            max_capacity,
            capacity_increment,
            data_mode,
            last_audio_index: INVALID_INDEX,
            last_video_index: INVALID_INDEX,
            next_seq: 0,
        }
    }

    /// An empty dispatcher for audio and video, waiting for its first key-frame.
    pub fn new(max_capacity: u32, capacity_increment: u32) -> (r: Dispatcher)
        ensures
            r.inv(),
            r@ == Dispatcher::initial(max_capacity, capacity_increment, MediaType::AV),
    {
        Dispatcher::with_mode(max_capacity, capacity_increment, MediaType::AV)
    }

    /// An empty dispatcher in `data_mode` (`AUDIO` for audio only).
    pub fn with_mode(max_capacity: u32, capacity_increment: u32, data_mode: MediaType) -> (r: Dispatcher)
        ensures
            r.inv(),
            r@ == Dispatcher::initial(max_capacity, capacity_increment, data_mode),
    {
        let r = Dispatcher {
            id: 1,
            running: false,
            continue_notify: false,
            notifiers: Vec::new(),
            recv_ref: 0,
            data_ref: 0,
            circular_buffer: Vec::new(),
            key_index: Vec::new(),
            audio_activate: false,
            video_activate: false,
            waiting_key_frame: true,
            read_flag: 0,
            max_capacity,
            capacity_increment,
            data_mode,
            last_audio_index: INVALID_INDEX,
            last_video_index: INVALID_INDEX,
            next_seq: 0,
        };
        proof {
            reveal(state_wf);
            crate::bits::lemma_popcount_zero(0);
            assert forall|i: u32| i < 32 implies !bit32(0u32, i) by {
                assert((0u32 >> i) & 1u32 != 1u32) by (bit_vector);
            }
            assert forall|k: u16| k < 16 implies !bit16(0u16, k) by {
                assert((0u16 >> k) & 1u16 != 1u16) by (bit_vector);
            }
        }
        r
    }

    /// Marks the dispatch loop as running; the caller starts the loop.
    pub fn start_dispatch(&mut self)
        requires
            old(self).inv(),
        ensures
            final(self).inv(),
            final(self)@ == (DispatcherState { running: true, ..old(self)@ }),
    {
        proof {
            reveal(state_wf);
        }
        self.running = true;
    }

    /// Tells the dispatch loop to end: it is marked stopped and woken.  The
    /// caller then joins it.
    pub fn stop_dispatch(&mut self)
        requires
            old(self).inv(),
        ensures
            final(self).inv(),
            final(self)@ == (if old(self)@.running {
                DispatcherState { running: false, continue_notify: true, ..old(self)@ }
            } else {
                old(self)@
            }),
    {
        proof {
            reveal(state_wf);
        }
        if self.running {
            self.running = false;
            self.continue_notify = true;
        }
    }

    pub fn is_running(&self) -> (r: bool)
        ensures
            r == self@.running,
    {
        self.running
    }

    /// Whether a wakeup of the dispatch loop is pending.
    pub fn continue_notify(&self) -> (r: bool)
        ensures
            r == self@.continue_notify,
    {
        self.continue_notify
    }

    /// Consumes a pending wakeup of the dispatch loop.
    pub fn clear_continue_notify(&mut self)
        requires
            old(self).inv(),
        ensures
            final(self).inv(),
            final(self)@ == (DispatcherState { continue_notify: false, ..old(self)@ }),
    {
        proof {
            reveal(state_wf);
        }
        self.continue_notify = false;
    }

    /// The table position of consumer `id`, if attached.
    fn find_notifier(&self, id: u32) -> (r: Option<usize>)
        requires
            self.inv(),
        ensures
            r is None <==> !attached(self@, id),
            r matches Some(i) ==> i < self@.cursors.len() && self@.cursors[i as int].id == id && i
                == cursor_pos(self@, id),
    {
        let mut i: usize = 0;
        while i < self.notifiers.len()
            invariant
                self.inv(),
                i <= self.notifiers@.len(),
                forall|j: int| 0 <= j < i ==> self.notifiers@[j].id != id,
            decreases self.notifiers@.len() - i,
        {
            if self.notifiers[i].id == id {
                proof {
                    reveal(state_wf);
                    let c = cursor_pos(self@, id);
                    assert(0 <= c < self@.cursors.len() && self@.cursors[c].id == id);
                    if c != i as int {
                        if c < i {
                            assert(self.notifiers@[c].id != id);
                        } else {
                            assert(self@.cursors[i as int].id != self@.cursors[c].id);
                        }
                    }
                }
                return Some(i);
            }
            i = i + 1;
        }
        None
    }

    /// Sets or clears slot `read_index`'s data bit for `kind` (both bits
    /// for a combined kind).  A slot number of 16 or more, such as
    /// `INVALID_INDEX`, names no consumer and changes nothing.  The invariant
    /// is kept unless a bit is raised for a slot that is not in use.
    fn set_receiver_data_ref(&mut self, read_index: u32, kind: MediaType, ready: bool)
        requires
            old(self).inv(),
        ensures
            final(self)@ == (if read_index < 16 {
                DispatcherState { data_ref: word_for(old(self)@.data_ref, read_index, kind, ready), ..old(self)@ }
            } else {
                old(self)@
            }),
            read_index >= 16 || !ready || bit16(old(self)@.read_flag, read_index as u16) ==> final(self).inv(),
    {
        if read_index >= 16 {
            return;
        }
        let old_ref = self.data_ref;
        match kind {
            MediaType::AUDIO => {
                self.data_ref = with_bit32(self.data_ref, read_index * 2, ready);
            },
            MediaType::VIDEO => {
                self.data_ref = with_bit32(self.data_ref, read_index * 2 + 1, ready);
            },
            MediaType::AV => {
                let w = with_bit32(self.data_ref, read_index * 2 + 1, ready);
                self.data_ref = with_bit32(w, read_index * 2, ready);
            },
        }
        proof {
            reveal(state_wf);
            if !ready || bit16(old(self)@.read_flag, read_index as u16) {
                lemma_word_for_ok(old_ref, read_index, kind, ready, self.read_flag);
                lemma_wf_words(old(self)@, self.data_ref, self.recv_ref);
            }
        }
    }


    /// Sets or clears slot `read_index`'s receive bit for `kind` (both bits
    /// for a combined kind).  A slot number of 16 or more, such as
    /// `INVALID_INDEX`, names no consumer and changes nothing.  The invariant
    /// is kept unless a bit is raised for a slot that is not in use.
    fn set_receiver_read_ref(&mut self, read_index: u32, kind: MediaType, ready: bool)
        requires
            old(self).inv(),
        ensures
            final(self)@ == (if read_index < 16 {
                DispatcherState { recv_ref: word_for(old(self)@.recv_ref, read_index, kind, ready), ..old(self)@ }
            } else {
                old(self)@
            }),
            read_index >= 16 || !ready || bit16(old(self)@.read_flag, read_index as u16) ==> final(self).inv(),
    {
        if read_index >= 16 {
            return;
        }
        let old_ref = self.recv_ref;
        match kind {
            MediaType::AUDIO => {
                self.recv_ref = with_bit32(self.recv_ref, read_index * 2, ready);
            },
            MediaType::VIDEO => {
                self.recv_ref = with_bit32(self.recv_ref, read_index * 2 + 1, ready);
            },
            MediaType::AV => {
                let w = with_bit32(self.recv_ref, read_index * 2 + 1, ready);
                self.recv_ref = with_bit32(w, read_index * 2, ready);
            },
        }
        proof {
            reveal(state_wf);
            if !ready || bit16(old(self)@.read_flag, read_index as u16) {
                lemma_word_for_ok(old_ref, read_index, kind, ready, self.read_flag);
                lemma_wf_words(old(self)@, self.data_ref, self.recv_ref);
            }
        }
    }


    /// Withdraws slot `read_index`'s data bit(s) for `kind`; a slot number
    /// of 16 or more names no consumer and changes nothing.
    pub fn clear_data_bit(&mut self, read_index: u32, kind: MediaType)
        requires
            old(self).inv(),
        ensures
            final(self).inv(),
            final(self)@ == (if read_index < 16 {
                DispatcherState { data_ref: word_for(old(self)@.data_ref, read_index, kind, false), ..old(self)@ }
            } else {
                old(self)@
            }),
    {
        self.set_receiver_data_ref(read_index, kind, false);
    }

    /// Withdraws slot `read_index`'s receive bit(s) for `kind`; a slot number
    /// of 16 or more names no consumer and changes nothing.
    pub fn clear_read_bit(&mut self, read_index: u32, kind: MediaType)
        requires
            old(self).inv(),
        ensures
            final(self).inv(),
            final(self)@ == (if read_index < 16 {
                DispatcherState { recv_ref: word_for(old(self)@.recv_ref, read_index, kind, false), ..old(self)@ }
            } else {
                old(self)@
            }),
    {
        self.set_receiver_read_ref(read_index, kind, false);
    }
}

impl Dispatcher {
    /// The first audio position after `index`, or `index` itself when there
    /// is none (or `index` is unset).
    fn available_audio_index(&self, index: u32) -> (r: u32)
        requires
            self.inv(),
        ensures
            r == (if index == INVALID_INDEX || first_audio_from(self@.ring, index + 1) < 0 {
                index
            } else {
                first_audio_from(self@.ring, index + 1) as u32
            }),
    {
        proof {
            reveal(state_wf);
        }
        let len = self.circular_buffer.len();
        if index == INVALID_INDEX || index as usize + 1 >= len {
            return index;
        }
        let mut i: usize = index as usize + 1;
        while i < len && self.circular_buffer[i].media_data.media_type != MediaType::AUDIO
            invariant
                index as int + 1 <= i <= len,
                len == self@.ring.len(),
                len < INVALID_INDEX,
                first_audio_from(self@.ring, i as int) == first_audio_from(self@.ring, index + 1),
            decreases len - i,
        {
            i = i + 1;
        }
        if i == len {
            index
        } else {
            i as u32
        }
    }

    /// The newest position of `kind` (audio, else video), unset on an empty ring.
    fn find_last_index(&self, kind: MediaType) -> (r: u32)
        ensures
            r == (if self@.ring.len() == 0 {
                INVALID_INDEX
            } else if kind == MediaType::AUDIO {
                self@.last_audio_index
            } else {
                self@.last_video_index
            }),
    {
        if self.circular_buffer.len() == 0 {
            INVALID_INDEX
        } else if kind == MediaType::AUDIO {
            self.last_audio_index
        } else {
            self.last_video_index
        }
    }

    /// The starting positions of a consumer attached now.
    fn seed_indices(&self) -> (r: (u32, u32))
        requires
            self.inv(),
        ensures
            r == seeded(self@),
    {
        proof {
            reveal(state_wf);
        }
        let len = self.circular_buffer.len();
        if len == 0 {
            (INVALID_INDEX, INVALID_INDEX)
        } else if self.data_mode == MediaType::AUDIO {
            ((len - 1) as u32, INVALID_INDEX)
        } else if self.key_index.len() > 0 {
            let back = self.key_index[self.key_index.len() - 1];
            let a = self.available_audio_index(back);
            proof {
                assert(back < len);
                lemma_first_audio_from(self@.ring, back + 1);
            }
            (if a == back { INVALID_INDEX } else { a }, back)
        } else {
            (self.find_last_index(MediaType::AUDIO), INVALID_INDEX)
        }
    }

    /// Registers `receiver` in the lowest free slot, seeds its cursor, and
    /// raises its data bits for whatever it can already read.  Refused when
    /// all sixteen slots are taken.
    pub fn attach_receiver(&mut self, receiver: &mut Receiver) -> (r: Result<u32, DispatchError>)
        requires
            old(self).inv(),
            !attached(old(self)@, old(receiver)@.id),
        ensures
            final(self).inv(),
            old(self)@.read_flag == 0xffffu16 ==> r == Err::<u32, DispatchError>(DispatchError::CapacityExceeded)
                && final(self)@ == old(self)@ && final(receiver)@ == old(receiver)@,
            old(self)@.read_flag != 0xffffu16 ==> {
                let k = lowest_clear(old(self)@.read_flag);
                &&& k < 16
                &&& r == Ok::<u32, DispatchError>(k as u32)
                &&& final(self)@ == attach_spec(
                    old(self)@,
                    old(receiver)@.id,
                    old(receiver)@.key_only,
                    old(receiver)@.mix_read,
                    k,
                )
                &&& final(receiver)@ == (ReceiverState {
                    read_index: k as u32,
                    first_audio: true,
                    first_video: true,
                    first_mix: true,
                    ..old(receiver)@
                })
            },
    {
        if self.read_flag == 0xffffu16 {
            return Err(DispatchError::CapacityExceeded);
        }
        let mut k: u16 = 0;
        while k < 16 && test_bit16(self.read_flag, k)
            invariant
                k <= 16,
                lowest_clear_from(self.read_flag, k) == lowest_clear(self.read_flag),
                forall|j: u16| j < k ==> #[trigger] bit16(self.read_flag, j),
            decreases 16 - k,
        {
            k = k + 1;
        }
        if k == 16 {
            proof {
                lemma_bit16_full(self.read_flag);
            }
            return Err(DispatchError::CapacityExceeded);
        }
        let ghost s0 = self@;
        proof {
            lemma_wf_facts(s0, 0);
        }
        let (a, v) = self.seed_indices();
        let len = self.circular_buffer.len();
        let audio_ready = len > 0 && a != INVALID_INDEX;
        let video_ready = len > 0 && self.data_mode != MediaType::AUDIO && self.key_index.len() > 0;
        receiver.notify_read_start();
        receiver.set_read_index(k as u32);
        self.read_flag = with_bit16(self.read_flag, k);
        let n = DataNotifier {
            id: receiver.id(),
            audio_index: a,
            video_index: v,
            read_index: k as u32,
            mixed: receiver.is_mix_read(),
            key_only: receiver.is_key_read(),
        };
        self.notifiers.push(n);
        let kk = k as u32;
        let w = with_bit32(self.data_ref, kk * 2, audio_ready);
        self.data_ref = with_bit32(w, kk * 2 + 1, video_ready);
        if len == 0 {
            self.audio_activate = true;
            self.video_activate = true;
        } else if self.data_mode != MediaType::AUDIO && self.last_audio_index == INVALID_INDEX {
            self.audio_activate = true;
        }
        proof {
            lemma_attach_wf(s0, n.id, n.key_only, n.mixed, k);
            assert(self@ == attach_spec(s0, n.id, n.key_only, n.mixed, k));
        }
        Ok(kk)
    }

    /// Removes consumer `id`: its cursor goes, its slot is freed, both of its
    /// bits are cleared in both readiness words, and the dispatch loop is
    /// woken.
    pub fn detach_receiver(&mut self, id: u32) -> (r: Result<(), DispatchError>)
        requires
            old(self).inv(),
        ensures
            final(self).inv(),
            !attached(old(self)@, id) ==> r == Err::<(), DispatchError>(DispatchError::NotAttached)
                && final(self)@ == old(self)@,
            attached(old(self)@, id) ==> r == Ok::<(), DispatchError>(())
                && final(self)@ == detach_spec(old(self)@, cursor_pos(old(self)@, id)),
    {
        let found = self.find_notifier(id);
        match found {
            None => Err(DispatchError::NotAttached),
            Some(i) => {
                let ghost s0 = self@;
                proof {
                    lemma_wf_facts(s0, i as int);
                }
                let k = self.notifiers[i].read_index;
                let kb = k as u16;
                let mut p: usize = 0;
                while p < self.circular_buffer.len()
                    invariant
                        self@ == (DispatcherState { ring: self.circular_buffer@, ..s0 }),
                        kb < 16,
                        p <= self.circular_buffer@.len(),
                        self.circular_buffer@.len() == s0.ring.len(),
                        forall|q: int| 0 <= q < p ==> #[trigger] self.circular_buffer@[q] == unmark(s0.ring[q], kb),
                        forall|q: int| p <= q < self.circular_buffer@.len() ==> #[trigger] self.circular_buffer@[q] == s0.ring[q],
                    decreases s0.ring.len() - p,
                {
                    let flag = self.circular_buffer[p].reserve_flag & !(1u16 << kb);
                    self.circular_buffer[p].reserve_flag = flag;
                    p = p + 1;
                }
                proof {
                    assert(self.circular_buffer@ =~= s0.ring.map_values(|x: DataSample| unmark(x, kb)));
                }
                self.notifiers.remove(i);
                self.read_flag = without_bit16(self.read_flag, k as u16);
                let w = with_bit32(self.data_ref, k * 2 + 1, false);
                self.data_ref = with_bit32(w, k * 2, false);
                let w = with_bit32(self.recv_ref, k * 2 + 1, false);
                self.recv_ref = with_bit32(w, k * 2, false);
                self.continue_notify = true;
                proof {
                    lemma_detach_wf(s0, i as int);
                    assert(self@ == detach_spec(s0, i as int));
                }
                Ok(())
            },
        }
    }
}

impl Dispatcher {
    /// Whether the consumer in slot `read_index` has read position `index`;
    /// a position past the ring counts as read.  A slot number of 16 or more
    /// names no consumer, which has read nothing inside the ring.
    pub fn is_read(&self, read_index: u32, index: u32) -> (r: bool)
        ensures
            r == (index >= self@.ring.len() || (read_index < 16 && read_by(
                self@.ring[index as int],
                read_index as u16,
            ))),
    {
        if index as usize >= self.circular_buffer.len() {
            true
        } else {
            Dispatcher::is_data_read(read_index, &self.circular_buffer[index as usize])
        }
    }

    /// Whether the consumer in slot `read_index` has read `data`; false for a
    /// slot number of 16 or more, which names no consumer.
    pub fn is_data_read(read_index: u32, data: &DataSample) -> (r: bool)
        ensures
            r == (read_index < 16 && read_by(*data, read_index as u16)),
    {
        if read_index >= 16 {
            return false;
        }
        (data.reserve_flag >> (read_index as u16)) & 1u16 == 1u16
    }

    /// Marks consumer `recv_id` ready to receive `kind`, advances its cursor,
    /// and raises or withdraws its data bit by whether the slot it lands on
    /// can be handed to it.  Returns that answer; false for an unknown
    /// consumer, which changes nothing.
    #[verifier::rlimit(40)]
    pub fn notify_read_ready(&mut self, recv_id: u32, kind: MediaType) -> (r: bool)
        requires
            old(self).inv(),
        ensures
            final(self).inv(),
            !attached(old(self)@, recv_id) ==> !r && final(self)@ == old(self)@,
            attached(old(self)@, recv_id) ==> (final(self)@, r) == notify_ready_spec(
                old(self)@,
                cursor_pos(old(self)@, recv_id),
                kind,
            ),
            (final(self)@, r) == notify_result(old(self)@, recv_id, kind),
    {
        let found = self.find_notifier(recv_id);
        let i = match found {
            None => return false,
            Some(i) => i,
        };
        let ghost s0 = self@;
        proof {
            lemma_wf_facts(s0, i as int);
        }
        let c = self.notifiers[i];
        let k = c.read_index;
        let b = k as u16;
        self.set_receiver_read_ref(k, kind, true);
        let ghost s1 = self@;
        let from = c.get_receiver_read_index(kind);
        let to = find_receiver_next_index(&mut self.circular_buffer, from, kind, b, c.key_only);
        proof {
            lemma_advance_same_frames(s1.ring, b, from as int, kind, c.key_only);
            lemma_advance_pos(s1.ring, b, from as int, kind, c.key_only);
        }
        let avail = (to as usize) < self.circular_buffer.len() && is_eligible(
            &self.circular_buffer[to as usize],
            b,
            kind,
            c.key_only,
        );
        let mut n = c;
        n.update_read_position(kind, from, to);
        self.notifiers.set(i, n);
        proof {
            lemma_advance_marks(s1.ring, b, from as int, kind, c.key_only);
            lemma_wf_ring_marks(s1, self.circular_buffer@, b);
            lemma_wf_cursor_update(DispatcherState { ring: self.circular_buffer@, ..s1 }, i as int, n);
        }
        self.set_receiver_data_ref(k, kind, avail);
        if avail {
            proof {
                lemma_wf_flags(self@, self@.running, true);
            }
            self.continue_notify = true;
        }
        proof {
            assert(self@ == notify_ready_spec(s0, i as int, kind).0);
        }
        avail
    }

    /// Hands consumer `recv_id` its next `kind` frame: the first eligible slot
    /// at or after its read position.  The slot becomes read by the consumer
    /// and the cursor moves past it.  An unknown consumer, or one with nothing
    /// eligible, gets `(false, None)` and changes nothing.
    #[verifier::rlimit(40)]
    pub fn read_buffer_data(&mut self, recv_id: u32, kind: MediaType) -> (r: (bool, Option<Arc<MediaData>>))
        requires
            old(self).inv(),
        ensures
            final(self).inv(),
            !attached(old(self)@, recv_id) ==> r == (false, None::<Arc<MediaData>>) && final(self)@ == old(self)@,
            attached(old(self)@, recv_id) ==> {
                let i = cursor_pos(old(self)@, recv_id);
                let j = read_target(old(self)@, i, kind);
                &&& r.0 == (j >= 0)
                &&& j < 0 ==> r.1 is None && final(self)@ == old(self)@
                &&& j >= 0 ==> r.1 == Some(old(self)@.ring[j].media_data) && final(self)@ == read_spec(
                    old(self)@,
                    i,
                    kind,
                )
            },
            (r.0, r.1, final(self)@) == read_result(old(self)@, recv_id, kind),
    {
        let found = self.find_notifier(recv_id);
        let i = match found {
            None => return (false, None),
            Some(i) => i,
        };
        let ghost s0 = self@;
        proof {
            lemma_wf_facts(s0, i as int);
        }
        let c = self.notifiers[i];
        let b = c.read_index as u16;
        let from = c.get_receiver_read_index(kind);
        if from as usize >= self.circular_buffer.len() {
            return (false, None);
        }
        let j = find_receiver_next_index(&mut self.circular_buffer, from, kind, b, c.key_only);
        proof {
            lemma_advance_same_frames(s0.ring, b, from as int, kind, c.key_only);
            lemma_advance_pos(s0.ring, b, from as int, kind, c.key_only);
        }
        if !is_eligible(&self.circular_buffer[j as usize], b, kind, c.key_only) {
            proof {
                lemma_first_eligible_spec(s0.ring, b, from as int, kind, c.key_only);
                if first_eligible(s0.ring, b, from as int, kind, c.key_only) >= 0 {
                    assert(self.circular_buffer@[j as int] == s0.ring[j as int]);
                }
                assert(self.circular_buffer@ == s0.ring);
            }
            return (false, None);
        }
        let ghost ring1 = self.circular_buffer@;
        let mut n = c;
        n.update_read_position(kind, from, j);
        let flag = self.circular_buffer[j as usize].reserve_flag | (1u16 << b);
        self.circular_buffer[j as usize].reserve_flag = flag;
        let ghost ring2 = self.circular_buffer@;
        proof {
            assert(ring2 =~= ring1.update(j as int, mark(ring1[j as int], b)));
        }
        let to = find_receiver_next_index(&mut self.circular_buffer, j, kind, b, c.key_only);
        proof {
            lemma_advance_same_frames(ring2, b, j as int, kind, c.key_only);
            lemma_advance_pos(ring2, b, j as int, kind, c.key_only);
        }
        n.update_read_position(kind, j, to);
        self.notifiers.set(i, n);
        let data = self.circular_buffer[j as usize].media_data.clone();
        proof {
            lemma_advance_marks(s0.ring, b, from as int, kind, c.key_only);
            lemma_mark_marks(ring1, j as int, b);
            lemma_marks_by_trans(s0.ring, ring1, ring2, b);
            lemma_advance_marks(ring2, b, j as int, kind, c.key_only);
            lemma_marks_by_trans(s0.ring, ring2, self.circular_buffer@, b);
            lemma_wf_ring_marks(s0, self.circular_buffer@, b);
            lemma_wf_cursor_update(DispatcherState { ring: self.circular_buffer@, ..s0 }, i as int, n);
            assert(self@ == read_spec(s0, i as int, kind));
        }
        (true, Some(data))
    }
}

/// What the invariant gives about the ring, and about the cursor at `i`.
proof fn lemma_wf_facts(s: DispatcherState, i: int)
    requires
        state_wf(s),
    ensures
        s.ring.len() < INVALID_INDEX,
        s.waiting_key_frame <==> s.ring.len() == 0,
        s.cursors.len() <= 16,
        s.keys.len() > 0 ==> s.keys.last() < s.ring.len(),
        forall|t: int| 0 <= t < s.keys.len() ==> #[trigger] s.keys[t] < s.ring.len(),
        forall|t: int, u: int| 0 <= t < u < s.keys.len() ==> #[trigger] s.keys[t] < #[trigger] s.keys[u],
        in_ring(s.ring, s.last_audio_index),
        in_ring(s.ring, s.last_video_index),
        0 <= i < s.cursors.len() ==> s.cursors[i].read_index < 16 && bit16(s.read_flag, s.cursors[i].read_index as u16)
            && in_ring(s.ring, s.cursors[i].audio_index) && in_ring(s.ring, s.cursors[i].video_index),
{
    reveal(state_wf);
    if s.keys.len() > 0 {
        assert(s.keys[s.keys.len() - 1] < s.ring.len());
    }
    if 0 <= i < s.cursors.len() {
        assert(s.cursors[i].read_index < 16);
        assert(bit16(s.read_flag, s.cursors[i].read_index as u16));
    }
}

/// Advancing changes read sets only.
pub proof fn lemma_advance_same_frames(ring: Seq<DataSample>, b: u16, from: int, kind: MediaType, key_only: bool)
    ensures
        same_frames(ring, advance_ring(ring, b, from, kind, key_only)),
{
}

/// An advance from a position inside the ring, or from the unset position,
/// stays inside the ring or unset.
pub proof fn lemma_advance_pos(ring: Seq<DataSample>, b: u16, from: int, kind: MediaType, key_only: bool)
    requires
        0 <= from,
    ensures
        from <= advance_pos(ring, b, from, kind, key_only),
        advance_pos(ring, b, from, kind, key_only) == from || advance_pos(ring, b, from, kind, key_only) < ring.len(),
{
    lemma_first_eligible_spec(ring, b, from, kind, key_only);
}

/// Changing only read sets keeps the invariant.
proof fn lemma_wf_ring_marks(s: DispatcherState, ring: Seq<DataSample>, b: u16)
    requires
        state_wf(s),
        same_frames(s.ring, ring),
        marks_by(s.ring, ring, b),
        b < 16 ==> bit16(s.read_flag, b),
    ensures
        state_wf(DispatcherState { ring, ..s }),
{
    reveal(state_wf);
    let t = DispatcherState { ring, ..s };
    assert forall|p: int, k: u16| 0 <= p < ring.len() && k < 16 && #[trigger] read_by(ring[p], k) implies bit16(
        t.read_flag,
        k,
    ) by {
        if k != b {
            assert(read_by(s.ring[p], k));
        }
    }
    assert forall|p: int| 0 <= p < ring.len() && #[trigger] is_key(ring[p]) implies exists|i: int|
        0 <= i < t.keys.len() && t.keys[i] == p by {
        assert(is_key(s.ring[p]));
        let i = choose|i: int| 0 <= i < s.keys.len() && s.keys[i] == p;
        assert(t.keys[i] == p);
    }
    assert forall|i: int| 0 <= i < t.keys.len() implies #[trigger] t.keys[i] < ring.len() && is_key(ring[t.keys[i] as int]) by {
        assert(is_key(s.ring[s.keys[i] as int]));
    }
    assert forall|i: int, j: int| 0 <= i < j < ring.len() implies #[trigger] ring[i].seq < #[trigger] ring[j].seq by {
        assert(s.ring[i].seq < s.ring[j].seq);
    }
    assert forall|i: int| 0 <= i < ring.len() implies #[trigger] ring[i].seq < t.next_seq by {
        assert(s.ring[i].seq < s.next_seq);
    }
    if ring.len() > 0 {
        assert(is_key(s.ring[0]));
    }
}

/// Replacing a cursor by one with the same identity and slot, and positions
/// inside the ring, keeps the invariant.
proof fn lemma_wf_cursor_update(s: DispatcherState, i: int, n: DataNotifier)
    requires
        state_wf(s),
        0 <= i < s.cursors.len(),
        n.id == s.cursors[i].id,
        n.read_index == s.cursors[i].read_index,
        in_ring(s.ring, n.audio_index),
        in_ring(s.ring, n.video_index),
    ensures
        state_wf(DispatcherState { cursors: s.cursors.update(i, n), ..s }),
{
    reveal(state_wf);
    let t = DispatcherState { cursors: s.cursors.update(i, n), ..s };
    assert forall|k: u16| k < 16 implies (#[trigger] bit16(t.read_flag, k) <==> exists|j: int|
        0 <= j < t.cursors.len() && t.cursors[j].read_index == k) by {
        if bit16(s.read_flag, k) {
            let j = choose|j: int| 0 <= j < s.cursors.len() && s.cursors[j].read_index == k;
            assert(t.cursors[j].read_index == k);
        }
        if exists|j: int| 0 <= j < t.cursors.len() && t.cursors[j].read_index == k {
            let j = choose|j: int| 0 <= j < t.cursors.len() && t.cursors[j].read_index == k;
            assert(s.cursors[j].read_index == k);
        }
    }
    assert forall|a: int, c: int| 0 <= a < c < t.cursors.len() implies #[trigger] t.cursors[a].read_index
        != #[trigger] t.cursors[c].read_index by {
        assert(s.cursors[a].read_index != s.cursors[c].read_index);
    }
    assert forall|a: int, c: int| 0 <= a < c < t.cursors.len() implies #[trigger] t.cursors[a].id
        != #[trigger] t.cursors[c].id by {
        assert(s.cursors[a].id != s.cursors[c].id);
    }
    assert forall|a: int| 0 <= a < t.cursors.len() implies #[trigger] t.cursors[a].read_index < 16 by {
        assert(s.cursors[a].read_index < 16);
    }
    assert forall|a: int| 0 <= a < t.cursors.len() implies in_ring(t.ring, #[trigger] t.cursors[a].audio_index)
        && in_ring(t.ring, t.cursors[a].video_index) by {
        if a != i {
            assert(in_ring(s.ring, s.cursors[a].audio_index));
        }
    }
}

impl Dispatcher {
    /// Empties the ring and unsets every position, ready for a new first
    /// key-frame.
    fn flush_buffer(&mut self)
        requires
            old(self).inv(),
        ensures
            final(self).inv(),
            final(self)@ == flush_spec(old(self)@),
    {
        let ghost s0 = self@;
        self.circular_buffer.clear();
        self.key_index.clear();
        let ghost mid = self@;
        let mut i: usize = 0;
        while i < self.notifiers.len()
            invariant
                self@ == (DispatcherState { cursors: self.notifiers@, ..mid }),
                i <= self.notifiers@.len(),
                self.notifiers@.len() == s0.cursors.len(),
                forall|j: int| 0 <= j < i ==> #[trigger] self.notifiers@[j] == (DataNotifier {
                    audio_index: INVALID_INDEX,
                    video_index: INVALID_INDEX,
                    ..s0.cursors[j]
                }),
                forall|j: int| i <= j < self.notifiers@.len() ==> #[trigger] self.notifiers@[j] == s0.cursors[j],
            decreases self.notifiers@.len() - i,
        {
            let mut n = self.notifiers[i];
            n.audio_index = INVALID_INDEX;
            n.video_index = INVALID_INDEX;
            self.notifiers.set(i, n);
            i = i + 1;
        }
        self.video_activate = true;
        self.audio_activate = true;
        self.last_audio_index = INVALID_INDEX;
        self.last_video_index = INVALID_INDEX;
        self.waiting_key_frame = true;
        proof {
            assert(self@.cursors =~= flush_spec(s0).cursors);
            assert(self@ == flush_spec(s0));
            lemma_flush_wf(s0);
        }
    }

    /// Appends `data` under the next sequence number, recording it if it is a
    /// key-frame.
    fn push_sample(&mut self, data: Arc<MediaData>)
        requires
            state_wf(DispatcherState { waiting_key_frame: old(self)@.ring.len() == 0, ..old(self)@ }),
            !old(self)@.waiting_key_frame,
            old(self)@.ring.len() > 0 || frame_is_key(*data),
            old(self)@.ring.len() + 1 < INVALID_INDEX,
            old(self)@.next_seq < u64::MAX,
        ensures
            final(self).inv(),
            final(self)@ == push_spec(old(self)@, data),
    {
        let ghost s0 = self@;
        let key = data.media_type != MediaType::AUDIO && data.key_frame;
        let pos = self.circular_buffer.len() as u32;
        let mut sample = DataSample::new(data);
        sample.seq = self.next_seq;
        self.circular_buffer.push(sample);
        if key {
            self.key_index.push(pos);
        }
        self.next_seq = self.next_seq + 1;
        proof {
            lemma_push_wf(s0, data);
        }
    }

    /// Evicts every slot before `evict_boundary` and shifts all live
    /// positions down by that many.
    fn erase_old_gop(&mut self)
        requires
            old(self).inv(),
            old(self)@.keys.len() > 0,
        ensures
            final(self).inv(),
            final(self)@ == evict_spec(old(self)@),
    {
        let ghost s0 = self@;
        proof {
            lemma_evict_count(s0.ring, s0.keys, s0.read_flag, 0);
            lemma_wf_facts(s0, 0);
        }
        let last_key = self.key_index.len() - 1;
        let mut cnt: usize = 0;
        while cnt < last_key && self.circular_buffer[self.key_index[cnt] as usize].reserve_flag & self.read_flag
            == self.read_flag
            invariant
                self@ == s0,
                last_key == s0.keys.len() - 1,
                forall|t: int| 0 <= t < s0.keys.len() ==> #[trigger] s0.keys[t] < s0.ring.len(),
                0 <= cnt < s0.keys.len(),
                evict_count(s0.ring, s0.keys, s0.read_flag, cnt as int) == evict_count(
                    s0.ring,
                    s0.keys,
                    s0.read_flag,
                    0,
                ),
            decreases s0.keys.len() - cnt,
        {
            cnt = cnt + 1;
        }
        let n = self.key_index[cnt];
        let kept = self.circular_buffer.split_off(n as usize);
        self.circular_buffer = kept;
        let mut keys: Vec<u32> = Vec::new();
        let mut t: usize = cnt;
        while t < self.key_index.len()
            invariant
                self.key_index@ == s0.keys,
                cnt <= t <= s0.keys.len(),
                n == s0.keys[cnt as int],
                forall|a: int, b: int| 0 <= a < b < s0.keys.len() ==> #[trigger] s0.keys[a] < #[trigger] s0.keys[b],
                keys@ =~= s0.keys.subrange(cnt as int, t as int).map_values(|k: u32| (k - n) as u32),
            decreases s0.keys.len() - t,
        {
            proof {
                if cnt < t {
                    assert(s0.keys[cnt as int] < s0.keys[t as int]);
                }
            }
            keys.push(self.key_index[t] - n);
            t = t + 1;
        }
        self.key_index = keys;
        self.last_audio_index = if self.last_audio_index == INVALID_INDEX || self.last_audio_index < n {
            INVALID_INDEX
        } else {
            self.last_audio_index - n
        };
        self.last_video_index = if self.last_video_index == INVALID_INDEX || self.last_video_index < n {
            INVALID_INDEX
        } else {
            self.last_video_index - n
        };
        let ghost mid = self@;
        let mut i: usize = 0;
        while i < self.notifiers.len()
            invariant
                self@ == (DispatcherState { cursors: self.notifiers@, ..mid }),
                i <= self.notifiers@.len(),
                self.notifiers@.len() == s0.cursors.len(),
                forall|j: int| 0 <= j < i ==> #[trigger] self.notifiers@[j] == (DataNotifier {
                    audio_index: shift_cursor(s0.cursors[j].audio_index, n),
                    video_index: shift_cursor(s0.cursors[j].video_index, n),
                    ..s0.cursors[j]
                }),
                forall|j: int| i <= j < self.notifiers@.len() ==> #[trigger] self.notifiers@[j] == s0.cursors[j],
            decreases self.notifiers@.len() - i,
        {
            let mut c = self.notifiers[i];
            c.audio_index = if c.audio_index == INVALID_INDEX {
                INVALID_INDEX
            } else if c.audio_index < n {
                0
            } else {
                c.audio_index - n
            };
            c.video_index = if c.video_index == INVALID_INDEX {
                INVALID_INDEX
            } else if c.video_index < n {
                0
            } else {
                c.video_index - n
            };
            self.notifiers.set(i, c);
            i = i + 1;
        }
        proof {
            assert(self@.cursors =~= evict_spec(s0).cursors);
            assert(self@.ring =~= evict_spec(s0).ring);
            assert(self@ == evict_spec(s0));
            lemma_evict_wf(s0);
        }
    }
}

impl Dispatcher {
    /// Raises the data bit of `kind` for every consumer interested in a new
    /// frame of that kind.
    fn activate_data_ref(&mut self, kind: MediaType, key: bool)
        requires
            old(self).inv(),
        ensures
            final(self).inv(),
            final(self)@ == (DispatcherState {
                data_ref: old(self)@.data_ref | data_bits(old(self)@.cursors, kind, key),
                ..old(self)@
            }),
    {
        let ghost s0 = self@;
        proof {
            reveal(state_wf);
        }
        let mut bits: u32 = 0;
        let mut i: usize = 0;
        while i < self.notifiers.len()
            invariant
                self@ == s0,
                i <= s0.cursors.len(),
                forall|j: int| 0 <= j < s0.cursors.len() ==> #[trigger] s0.cursors[j].read_index < 16,
                bits == data_bits(s0.cursors.subrange(0, i as int), kind, key),
            decreases s0.cursors.len() - i,
        {
            let c = self.notifiers[i];
            proof {
                assert(s0.cursors.subrange(0, i + 1).drop_last() =~= s0.cursors.subrange(0, i as int));
                assert(s0.cursors[i as int].read_index < 16);
            }
            if kind == MediaType::AUDIO || !c.key_only || key {
                let bit = if kind == MediaType::AUDIO { c.read_index * 2 } else { c.read_index * 2 + 1 };
                bits = bits | (1u32 << bit);
            }
            i = i + 1;
        }
        proof {
            assert(s0.cursors.subrange(0, s0.cursors.len() as int) =~= s0.cursors);
        }
        self.data_ref = self.data_ref | bits;
        proof {
            lemma_data_bits_ok(s0, kind, key);
        }
    }

    /// Seeds every cursor whose `kind` position is unset or already read
    /// onto the new slot `index`, and lowers that stream's activation flag.
    fn activate_receiver_index(&mut self, index: u32, kind: MediaType)
        requires
            old(self).inv(),
            index < old(self)@.ring.len(),
        ensures
            final(self).inv(),
            final(self)@ == activate_spec(old(self)@, index, kind),
    {
        let ghost s0 = self@;
        proof {
            reveal(state_wf);
        }
        let mut i: usize = 0;
        while i < self.notifiers.len()
            invariant
                self@ == (DispatcherState { cursors: self.notifiers@, ..s0 }),
                i <= self.notifiers@.len(),
                self.notifiers@.len() == s0.cursors.len(),
                forall|j: int| 0 <= j < s0.cursors.len() ==> #[trigger] s0.cursors[j].read_index < 16,
                forall|j: int| 0 <= j < i ==> #[trigger] self.notifiers@[j] == activated(s0.cursors[j], index, kind),
                forall|j: int| i <= j < self.notifiers@.len() ==> #[trigger] self.notifiers@[j] == s0.cursors[j],
            decreases self.notifiers@.len() - i,
        {
            let mut c = self.notifiers[i];
            proof {
                assert(s0.cursors[i as int].read_index < 16);
            }
            if kind == MediaType::VIDEO {
                if c.video_index == INVALID_INDEX {
                    c.video_index = index;
                }
            } else {
                if c.audio_index == INVALID_INDEX {
                    c.audio_index = index;
                }
            }
            self.notifiers.set(i, c);
            i = i + 1;
        }
        if kind == MediaType::VIDEO {
            self.video_activate = false;
        } else {
            self.audio_activate = false;
        }
        proof {
            assert(self@.cursors =~= activate_spec(s0, index, kind).cursors);
            lemma_activate_wf(s0, index, kind);
        }
    }

    /// Takes one frame from the producer: see `input_spec`.  Frames before
    /// the first key-frame are dropped.
    pub fn input_data(&mut self, data: Arc<MediaData>)
        requires
            old(self).inv(),
            old(self)@.ring.len() + 1 < INVALID_INDEX,
            old(self)@.next_seq < u64::MAX,
        ensures
            final(self).inv(),
            final(self)@ == input_spec(old(self)@, data),
    {
        let ghost s0 = self@;
        proof {
            lemma_wf_facts(s0, 0);
        }
        let key = data.media_type != MediaType::AUDIO && data.key_frame;
        let audio = data.media_type == MediaType::AUDIO;
        if self.waiting_key_frame {
            if key {
                self.flush_buffer();
                self.waiting_key_frame = false;
            } else {
                return;
            }
        }
        self.push_sample(data);
        if key {
            self.erase_old_gop();
            proof {
                lemma_wf_facts(self@, 0);
                lemma_wf_scalars(self@, true, true, self@.last_audio_index, self@.last_video_index);
            }
            self.audio_activate = true;
            self.video_activate = true;
        }
        proof {
            lemma_wf_facts(self@, 0);
            reveal(state_wf);
        }
        let last = (self.circular_buffer.len() - 1) as u32;
        if audio {
            proof {
                lemma_wf_scalars(self@, self@.audio_activate, self@.video_activate, last, self@.last_video_index);
            }
            self.last_audio_index = last;
            self.activate_data_ref(MediaType::AUDIO, false);
        } else {
            proof {
                lemma_wf_scalars(self@, self@.audio_activate, self@.video_activate, self@.last_audio_index, last);
            }
            self.last_video_index = last;
            self.activate_data_ref(MediaType::VIDEO, key);
        }
        if self.audio_activate && audio {
            self.activate_receiver_index(last, MediaType::AUDIO);
        }
        if key && self.video_activate {
            self.activate_receiver_index(last, MediaType::VIDEO);
        }
        proof {
            lemma_wf_flags(self@, self@.running, true);
        }
        self.continue_notify = true;
    }
}

/// The wakeups one cursor gets from a pass over `notify_ref`: one combined
/// wakeup for a mixed consumer with either bit set; else audio, then video,
/// for each bit set.
pub open spec fn notes_for(c: DataNotifier, notify_ref: u32) -> Seq<(u32, MediaType)> {
    let a = bit32(notify_ref, (2 * c.read_index) as u32);
    let v = bit32(notify_ref, (2 * c.read_index + 1) as u32);
    if c.mixed {
        if a || v {
            seq![(c.id, MediaType::AV)]
        } else {
            seq![]
        }
    } else {
        (if a { seq![(c.id, MediaType::AUDIO)] } else { seq![] }) + (if v { seq![(c.id, MediaType::VIDEO)] } else { seq![] })
    }
}

/// The wakeups of one pass of the dispatch loop, cursor by cursor.
pub open spec fn notes(cs: Seq<DataNotifier>, notify_ref: u32) -> Seq<(u32, MediaType)>
    decreases cs.len(),
{
    if cs.len() == 0 {
        seq![]
    } else {
        notes(cs.drop_last(), notify_ref) + notes_for(cs.last(), notify_ref)
    }
}

impl Dispatcher {
    /// One pass of the dispatch loop: the wakeups, as `(consumer id, kind)`,
    /// for every consumer whose data and receive bits are both set.
    pub fn collect_notifications(&self) -> (r: Vec<(u32, MediaType)>)
        requires
            self.inv(),
        ensures
            r@ == notes(self@.cursors, self@.data_ref & self@.recv_ref),
    {
        proof {
            reveal(state_wf);
        }
        let notify_ref = self.data_ref & self.recv_ref;
        let mut out: Vec<(u32, MediaType)> = Vec::new();
        let mut i: usize = 0;
        while i < self.notifiers.len()
            invariant
                i <= self@.cursors.len(),
                notify_ref == self@.data_ref & self@.recv_ref,
                forall|j: int| 0 <= j < self@.cursors.len() ==> #[trigger] self@.cursors[j].read_index < 16,
                out@ == notes(self@.cursors.subrange(0, i as int), notify_ref),
            decreases self@.cursors.len() - i,
        {
            let c = self.notifiers[i];
            proof {
                assert(self@.cursors.subrange(0, i + 1).drop_last() =~= self@.cursors.subrange(0, i as int));
                assert(self@.cursors[i as int].read_index < 16);
            }
            let ghost before = out@;
            let a = crate::bits::test_bit32(notify_ref, c.read_index * 2);
            let v = crate::bits::test_bit32(notify_ref, c.read_index * 2 + 1);
            if c.mixed {
                if a || v {
                    out.push(c.notify_data_receiver(MediaType::AV));
                }
            } else {
                if a {
                    out.push(c.notify_data_receiver(MediaType::AUDIO));
                }
                if v {
                    out.push(c.notify_data_receiver(MediaType::VIDEO));
                }
            }
            proof {
                assert(out@ =~= before + notes_for(c, notify_ref));
            }
            i = i + 1;
        }
        proof {
            assert(self@.cursors.subrange(0, self@.cursors.len() as int) =~= self@.cursors);
        }
        out
    }

    /// Turns key-only delivery on or off for consumer `recv_id`; turning it on
    /// withdraws a pending video wakeup.  False for an unknown consumer, which
    /// changes nothing.
    pub fn set_key_mode(&mut self, recv_id: u32, enable: bool) -> (r: bool)
        requires
            old(self).inv(),
        ensures
            final(self).inv(),
            r == attached(old(self)@, recv_id),
            !r ==> final(self)@ == old(self)@,
            r ==> {
                let i = cursor_pos(old(self)@, recv_id);
                let c = old(self)@.cursors[i];
                final(self)@ == (DispatcherState {
                    cursors: old(self)@.cursors.update(i, DataNotifier { key_only: enable, ..c }),
                    data_ref: if enable {
                        word_for(old(self)@.data_ref, c.read_index, MediaType::VIDEO, false)
                    } else {
                        old(self)@.data_ref
                    },
                    ..old(self)@
                })
            },
    {
        let i = match self.find_notifier(recv_id) {
            None => return false,
            Some(i) => i,
        };
        let ghost s0 = self@;
        proof {
            lemma_wf_facts(s0, i as int);
        }
        let mut c = self.notifiers[i];
        c.key_only = enable;
        self.notifiers.set(i, c);
        proof {
            lemma_wf_cursor_update(s0, i as int, c);
        }
        if enable {
            self.set_receiver_data_ref(c.read_index, MediaType::VIDEO, false);
        }
        true
    }

    /// Makes consumer `recv_id` a mixed consumer, woken once on its combined
    /// waitline.  False for an unknown consumer, which changes nothing.
    pub fn set_mix_mode(&mut self, recv_id: u32) -> (r: bool)
        requires
            old(self).inv(),
        ensures
            final(self).inv(),
            r == attached(old(self)@, recv_id),
            !r ==> final(self)@ == old(self)@,
            r ==> {
                let i = cursor_pos(old(self)@, recv_id);
                final(self)@ == (DispatcherState {
                    cursors: old(self)@.cursors.update(i, DataNotifier { mixed: true, ..old(self)@.cursors[i] }),
                    ..old(self)@
                })
            },
    {
        let i = match self.find_notifier(recv_id) {
            None => return false,
            Some(i) => i,
        };
        let ghost s0 = self@;
        proof {
            lemma_wf_facts(s0, i as int);
        }
        let mut c = self.notifiers[i];
        c.mixed = true;
        self.notifiers.set(i, c);
        proof {
            lemma_wf_cursor_update(s0, i as int, c);
        }
        true
    }

    /// The number of slots in the ring.
    pub fn ring_len(&self) -> (r: usize)
        ensures
            r == self@.ring.len(),
    {
        self.circular_buffer.len()
    }

    /// The positions of the ring's video key-frames.
    pub fn key_indices(&self) -> (r: &Vec<u32>)
        ensures
            r@ == self@.keys,
    {
        &self.key_index
    }

    /// The `pts` of every frame in the ring, oldest first.
    pub fn ring_pts(&self) -> (r: Vec<u64>)
        ensures
            r@.len() == self@.ring.len(),
            forall|i: int| 0 <= i < r@.len() ==> #[trigger] r@[i] == self@.ring[i].media_data.pts,
    {
        let mut out: Vec<u64> = Vec::new();
        let mut i: usize = 0;
        while i < self.circular_buffer.len()
            invariant
                i <= self@.ring.len(),
                out@.len() == i,
                forall|j: int| 0 <= j < i ==> #[trigger] out@[j] == self@.ring[j].media_data.pts,
            decreases self@.ring.len() - i,
        {
            out.push(self.circular_buffer[i].media_data.pts);
            i = i + 1;
        }
        out
    }

    /// The slot map: bit `k` is set while consumer slot `k` is taken.
    pub fn read_flag(&self) -> (r: u16)
        ensures
            r == self@.read_flag,
    {
        self.read_flag
    }

    pub fn data_ref(&self) -> (r: u32)
        ensures
            r == self@.data_ref,
    {
        self.data_ref
    }

    pub fn recv_ref(&self) -> (r: u32)
        ensures
            r == self@.recv_ref,
    {
        self.recv_ref
    }

    pub fn last_audio_index(&self) -> (r: u32)
        ensures
            r == self@.last_audio_index,
    {
        self.last_audio_index
    }

    pub fn last_video_index(&self) -> (r: u32)
        ensures
            r == self@.last_video_index,
    {
        self.last_video_index
    }

    /// The sequence number the next accepted frame gets.
    pub fn next_seq(&self) -> (r: u64)
        ensures
            r == self@.next_seq,
    {
        self.next_seq
    }

    pub fn is_waiting_key_frame(&self) -> (r: bool)
        ensures
            r == self@.waiting_key_frame,
    {
        self.waiting_key_frame
    }

    /// Consumer `recv_id`'s cursor, if attached.
    pub fn notifier(&self, recv_id: u32) -> (r: Option<DataNotifier>)
        requires
            self.inv(),
        ensures
            r is None <==> !attached(self@, recv_id),
            r matches Some(c) ==> c == self@.cursors[cursor_pos(self@, recv_id)],
    {
        match self.find_notifier(recv_id) {
            None => None,
            Some(i) => Some(self.notifiers[i]),
        }
    }
}

/// Activation flags and "last of kind" positions inside the ring play no
/// other part in the invariant.
proof fn lemma_wf_scalars(
    s: DispatcherState,
    audio_activate: bool,
    video_activate: bool,
    last_audio_index: u32,
    last_video_index: u32,
)
    requires
        state_wf(s),
        in_ring(s.ring, last_audio_index),
        in_ring(s.ring, last_video_index),
    ensures
        state_wf(DispatcherState { audio_activate, video_activate, last_audio_index, last_video_index, ..s }),
{
    reveal(state_wf);
    let t = DispatcherState { audio_activate, video_activate, last_audio_index, last_video_index, ..s };
    assert(marks_ok(t.ring, t.read_flag));
    assert(seqs_ok(t.ring, t.next_seq));
    assert(keys_exact(t.ring, t.keys));
    assert(registry_ok(t.cursors, t.read_flag));
}

/// Every bit of `data_bits` belongs to one of the cursors' slots.
proof fn lemma_data_bits_slot(cs: Seq<DataNotifier>, kind: MediaType, key: bool, i: u32)
    requires
        i < 32,
        forall|j: int| 0 <= j < cs.len() ==> #[trigger] cs[j].read_index < 16,
        bit32(data_bits(cs, kind, key), i),
    ensures
        exists|j: int| 0 <= j < cs.len() && cs[j].read_index == i / 2,
    decreases cs.len(),
{
    if cs.len() == 0 {
        assert((0u32 >> i) & 1u32 != 1u32) by (bit_vector);
    } else {
        let rest = cs.drop_last();
        let c = cs.last();
        assert(c.read_index < 16);
        assert forall|j: int| 0 <= j < rest.len() implies #[trigger] rest[j].read_index < 16 by {
            assert(cs[j].read_index < 16);
        }
        if wants(c, kind, key) {
            lemma_bit32_set(data_bits(rest, kind, key), channel_bit(c.read_index, kind), i);
        }
        if i / 2 == c.read_index {
            assert(cs[cs.len() - 1].read_index == i / 2);
        } else {
            lemma_data_bits_slot(rest, kind, key, i);
            let j = choose|j: int| 0 <= j < rest.len() && rest[j].read_index == i / 2;
            assert(cs[j].read_index == i / 2);
        }
    }
}

proof fn lemma_data_bits_ok(s: DispatcherState, kind: MediaType, key: bool)
    requires
        state_wf(s),
    ensures
        state_wf(DispatcherState { data_ref: s.data_ref | data_bits(s.cursors, kind, key), ..s }),
{
    reveal(state_wf);
    let bits = data_bits(s.cursors, kind, key);
    assert forall|i: u32| i < 32 && #[trigger] bit32(s.data_ref | bits, i) implies bit16(s.read_flag, (i / 2) as u16) by {
        crate::bits::lemma_bit32_or(s.data_ref, bits, i);
        if bit32(bits, i) {
            lemma_data_bits_slot(s.cursors, kind, key, i);
        }
    }
}

proof fn lemma_activate_wf(s: DispatcherState, index: u32, kind: MediaType)
    requires
        state_wf(s),
        index < s.ring.len(),
    ensures
        state_wf(activate_spec(s, index, kind)),
{
    reveal(state_wf);
    let t = activate_spec(s, index, kind);
    lemma_registry_same(s.cursors, t.cursors, s.read_flag);
    assert forall|i: int| 0 <= i < t.cursors.len() implies in_ring(t.ring, #[trigger] t.cursors[i].audio_index)
        && in_ring(t.ring, t.cursors[i].video_index) by {
        assert(in_ring(s.ring, s.cursors[i].audio_index));
    }
}

/// `evict_count` stops inside the key list, after keys read by everyone.
pub proof fn lemma_evict_count(ring: Seq<DataSample>, keys: Seq<u32>, read_flag: u16, i: int)
    requires
        0 <= i < keys.len(),
    ensures
        i <= evict_count(ring, keys, read_flag, i) < keys.len(),
        forall|t: int|
            i <= t < evict_count(ring, keys, read_flag, i) ==> #[trigger] fully_read(ring[keys[t] as int], read_flag),
    decreases keys.len() - i,
{
    if i + 1 < keys.len() && fully_read(ring[keys[i] as int], read_flag) {
        lemma_evict_count(ring, keys, read_flag, i + 1);
    }
}

proof fn lemma_flush_wf(s: DispatcherState)
    requires
        state_wf(s),
    ensures
        state_wf(flush_spec(s)),
{
    reveal(state_wf);
    let t = flush_spec(s);
    lemma_registry_same(s.cursors, t.cursors, s.read_flag);
}

/// The registry's conditions depend on identities and slots alone.
proof fn lemma_registry_same(a: Seq<DataNotifier>, c: Seq<DataNotifier>, read_flag: u16)
    requires
        registry_ok(a, read_flag),
        a.len() == c.len(),
        forall|j: int| #![trigger c[j]] 0 <= j < a.len() ==> c[j].id == a[j].id && c[j].read_index == a[j].read_index,
    ensures
        registry_ok(c, read_flag),
{
    assert forall|k: u16| k < 16 implies (#[trigger] bit16(read_flag, k) <==> exists|j: int|
        0 <= j < c.len() && c[j].read_index == k) by {
        if bit16(read_flag, k) {
            let j = choose|j: int| 0 <= j < a.len() && a[j].read_index == k;
            assert(c[j].read_index == k);
        }
        if exists|j: int| 0 <= j < c.len() && c[j].read_index == k {
            let j = choose|j: int| 0 <= j < c.len() && c[j].read_index == k;
            assert(a[j].read_index == k);
        }
    }
    assert forall|x: int, y: int| 0 <= x < y < c.len() implies #[trigger] c[x].read_index
        != #[trigger] c[y].read_index by {
        assert(a[x].read_index != a[y].read_index);
    }
    assert forall|x: int, y: int| 0 <= x < y < c.len() implies #[trigger] c[x].id != #[trigger] c[y].id by {
        assert(a[x].id != a[y].id);
    }
    assert forall|x: int| 0 <= x < c.len() implies #[trigger] c[x].read_index < 16 by {
        assert(a[x].read_index < 16);
    }
}

proof fn lemma_push_wf(s: DispatcherState, frame: Arc<MediaData>)
    requires
        state_wf(DispatcherState { waiting_key_frame: s.ring.len() == 0, ..s }),
        !s.waiting_key_frame,
        s.ring.len() > 0 || frame_is_key(*frame),
        s.ring.len() + 1 < INVALID_INDEX,
        s.next_seq < u64::MAX,
    ensures
        state_wf(push_spec(s, frame)),
{
    reveal(state_wf);
    let w = DispatcherState { waiting_key_frame: s.ring.len() == 0, ..s };
    let t = push_spec(s, frame);
    let n = s.ring.len();
    assert forall|p: int, j: u16| 0 <= p < t.ring.len() && j < 16 && #[trigger] read_by(t.ring[p], j) implies bit16(
        t.read_flag,
        j,
    ) by {
        if p < n {
            assert(read_by(s.ring[p], j));
        } else {
            assert((0u16 >> j) & 1u16 != 1u16) by (bit_vector);
        }
    }
    assert forall|i: int| 0 <= i < t.keys.len() implies #[trigger] t.keys[i] < t.ring.len() && is_key(t.ring[t.keys[i] as int]) by {
        if i < s.keys.len() {
            assert(s.keys[i] < n && is_key(s.ring[s.keys[i] as int]));
        }
    }
    assert forall|i: int, j: int| 0 <= i < j < t.keys.len() implies #[trigger] t.keys[i] < #[trigger] t.keys[j] by {
        if j < s.keys.len() {
            assert(s.keys[i] < s.keys[j]);
        } else {
            assert(s.keys[i] < n);
        }
    }
    assert forall|p: int| 0 <= p < t.ring.len() && #[trigger] is_key(t.ring[p]) implies exists|i: int|
        0 <= i < t.keys.len() && t.keys[i] == p by {
        if p < n {
            assert(is_key(s.ring[p]));
            let i = choose|i: int| 0 <= i < s.keys.len() && s.keys[i] == p;
            assert(t.keys[i] == p);
        } else {
            assert(t.keys[s.keys.len() as int] == p);
        }
    }
    assert forall|i: int, j: int| 0 <= i < j < t.ring.len() implies #[trigger] t.ring[i].seq < #[trigger] t.ring[j].seq by {
        if j < n {
            assert(s.ring[i].seq < s.ring[j].seq);
        } else {
            assert(s.ring[i].seq < s.next_seq);
        }
    }
    assert forall|i: int| 0 <= i < t.ring.len() implies #[trigger] t.ring[i].seq < t.next_seq by {
        if i < n {
            assert(s.ring[i].seq < s.next_seq);
        }
    }
    assert forall|i: int| 0 <= i < t.cursors.len() implies in_ring(t.ring, #[trigger] t.cursors[i].audio_index)
        && in_ring(t.ring, t.cursors[i].video_index) by {
        assert(in_ring(s.ring, s.cursors[i].audio_index));
    }
    if n == 0 {
        assert(t.ring[0].media_data == frame);
    } else {
        assert(t.ring[0] == s.ring[0]);
    }
}

proof fn lemma_evict_wf(s: DispatcherState)
    requires
        state_wf(s),
        s.keys.len() > 0,
    ensures
        state_wf(evict_spec(s)),
        evict_boundary(s) < s.ring.len(),
{
    reveal(state_wf);
    let t = evict_spec(s);
    let cnt = evict_count(s.ring, s.keys, s.read_flag, 0);
    lemma_evict_count(s.ring, s.keys, s.read_flag, 0);
    let n = s.keys[cnt];
    assert(n < s.ring.len() && is_key(s.ring[n as int]));
    assert(t.ring.len() == s.ring.len() - n);
    assert forall|i: int| 0 <= i < t.keys.len() implies #[trigger] t.keys[i] < t.ring.len() && is_key(t.ring[t.keys[i] as int]) by {
        assert(s.keys[cnt + i] < s.ring.len() && is_key(s.ring[s.keys[cnt + i] as int]));
        if i > 0 {
            assert(s.keys[cnt] < s.keys[cnt + i]);
        }
    }
    assert forall|i: int, j: int| 0 <= i < j < t.keys.len() implies #[trigger] t.keys[i] < #[trigger] t.keys[j] by {
        assert(s.keys[cnt + i] < s.keys[cnt + j]);
        if i > 0 {
            assert(s.keys[cnt] < s.keys[cnt + i]);
        }
    }
    assert forall|p: int| 0 <= p < t.ring.len() && #[trigger] is_key(t.ring[p]) implies exists|i: int|
        0 <= i < t.keys.len() && t.keys[i] == p by {
        assert(is_key(s.ring[p + n]));
        let i = choose|i: int| 0 <= i < s.keys.len() && s.keys[i] == p + n;
        if i < cnt {
            assert(s.keys[i] < s.keys[cnt]);
        }
        if i > cnt {
            assert(s.keys[cnt] < s.keys[i]);
        }
        assert(t.keys[i - cnt] == p);
    }
    assert forall|i: int, j: int| 0 <= i < j < t.ring.len() implies #[trigger] t.ring[i].seq < #[trigger] t.ring[j].seq by {
        assert(s.ring[i + n].seq < s.ring[j + n].seq);
    }
    assert forall|i: int| 0 <= i < t.ring.len() implies #[trigger] t.ring[i].seq < t.next_seq by {
        assert(s.ring[i + n].seq < s.next_seq);
    }
    lemma_registry_same(s.cursors, t.cursors, s.read_flag);
    assert forall|i: int| 0 <= i < t.cursors.len() implies in_ring(t.ring, #[trigger] t.cursors[i].audio_index)
        && in_ring(t.ring, t.cursors[i].video_index) by {
        assert(in_ring(s.ring, s.cursors[i].audio_index));
    }
}

/// `first_audio_from` lands on an audio slot at or after `i`, or nowhere.
proof fn lemma_first_audio_from(ring: Seq<DataSample>, i: int)
    ensures
        first_audio_from(ring, i) == -1 || (i <= first_audio_from(ring, i) < ring.len() && is_audio(
            ring[first_audio_from(ring, i)],
        )),
    decreases ring.len() - i,
{
    if 0 <= i < ring.len() && !is_audio(ring[i]) {
        lemma_first_audio_from(ring, i + 1);
    }
}

/// A consumer seeded now starts inside the ring.
proof fn lemma_seeded_in_ring(s: DispatcherState)
    requires
        state_wf(s),
    ensures
        in_ring(s.ring, seeded(s).0),
        in_ring(s.ring, seeded(s).1),
{
    reveal(state_wf);
    if s.ring.len() > 0 && s.data_mode != MediaType::AUDIO && s.keys.len() > 0 {
        let back = s.keys.last();
        assert(s.keys[s.keys.len() - 1] < s.ring.len());
        lemma_first_audio_from(s.ring, back + 1);
    }
}

/// The lowest clear bit at or above `i` is clear, and every bit between is set.
proof fn lemma_lowest_clear_from(x: u16, i: u16)
    requires
        i <= 16,
    ensures
        i <= lowest_clear_from(x, i) <= 16,
        lowest_clear_from(x, i) < 16 ==> !bit16(x, lowest_clear_from(x, i)),
    decreases 16 - i,
{
    if i < 16 && bit16(x, i) {
        lemma_lowest_clear_from(x, (i + 1) as u16);
    }
}

proof fn lemma_attach_wf(s: DispatcherState, id: u32, key_only: bool, mixed: bool, k: u16)
    requires
        state_wf(s),
        !attached(s, id),
        k < 16,
        !bit16(s.read_flag, k),
    ensures
        state_wf(attach_spec(s, id, key_only, mixed, k)),
{
    reveal(state_wf);
    let t = attach_spec(s, id, key_only, mixed, k);
    lemma_seeded_in_ring(s);
    assert forall|p: int, j: u16| 0 <= p < t.ring.len() && j < 16 && #[trigger] read_by(t.ring[p], j) implies bit16(
        t.read_flag,
        j,
    ) by {
        lemma_bit16_set(s.read_flag, k, j);
    }
    crate::bits::lemma_popcount_set(s.read_flag, k);
    lemma_popcount_bound(t.read_flag, 0);
    assert forall|j: u16| j < 16 implies (#[trigger] bit16(t.read_flag, j) <==> exists|i: int|
        0 <= i < t.cursors.len() && t.cursors[i].read_index == j) by {
        lemma_bit16_set(s.read_flag, k, j);
        if j == k {
            assert(t.cursors[s.cursors.len() as int].read_index == j);
        } else if bit16(s.read_flag, j) {
            let i = choose|i: int| 0 <= i < s.cursors.len() && s.cursors[i].read_index == j;
            assert(t.cursors[i].read_index == j);
        } else {
            if exists|i: int| 0 <= i < t.cursors.len() && t.cursors[i].read_index == j {
                let i = choose|i: int| 0 <= i < t.cursors.len() && t.cursors[i].read_index == j;
                assert(s.cursors[i].read_index == j);
            }
        }
    }
    assert forall|i: int, j: int| 0 <= i < j < t.cursors.len() implies #[trigger] t.cursors[i].read_index
        != #[trigger] t.cursors[j].read_index by {
        if j == s.cursors.len() {
            assert(bit16(s.read_flag, s.cursors[i].read_index as u16));
        }
    }
    assert forall|i: int, j: int| 0 <= i < j < t.cursors.len() implies #[trigger] t.cursors[i].id
        != #[trigger] t.cursors[j].id by {
        if j == s.cursors.len() {
            assert(s.cursors[i].id != id);
        }
    }
    assert forall|i: int| 0 <= i < t.cursors.len() implies in_ring(t.ring, #[trigger] t.cursors[i].audio_index)
        && in_ring(t.ring, t.cursors[i].video_index) by {
        if i < s.cursors.len() {
            assert(t.cursors[i] == s.cursors[i]);
        }
    }
    let kk = k as u32;
    assert forall|i: u32| i < 32 && #[trigger] bit32(t.data_ref, i) implies bit16(t.read_flag, (i / 2) as u16) by {
        lemma_word_with(word_with(s.data_ref, (2 * kk) as u32, s.ring.len() > 0 && seeded(s).0 != INVALID_INDEX), (2 * kk + 1) as u32, s.ring.len() > 0 && s.data_mode != MediaType::AUDIO && s.keys.len() > 0, i);
        lemma_word_with(s.data_ref, (2 * kk) as u32, s.ring.len() > 0 && seeded(s).0 != INVALID_INDEX, i);
        lemma_bit16_set(s.read_flag, k, (i / 2) as u16);
    }
    assert forall|i: u32| i < 32 && #[trigger] bit32(t.recv_ref, i) implies bit16(t.read_flag, (i / 2) as u16) by {
        lemma_bit16_set(s.read_flag, k, (i / 2) as u16);
    }
}

proof fn lemma_detach_wf(s: DispatcherState, c: int)
    requires
        state_wf(s),
        0 <= c < s.cursors.len(),
    ensures
        state_wf(detach_spec(s, c)),
{
    reveal(state_wf);
    let t = detach_spec(s, c);
    let k = s.cursors[c].read_index;
    assert(bit16(s.read_flag, k as u16));
    assert(same_frames(s.ring, t.ring));
    assert forall|p: int, j: u16| 0 <= p < t.ring.len() && j < 16 && #[trigger] read_by(t.ring[p], j) implies read_by(
        s.ring[p],
        j,
    ) || j == k as u16 by {
        lemma_bit16_clear(s.ring[p].reserve_flag, k as u16, j);
    }
    lemma_wf_ring_marks(s, t.ring, k as u16);
    assert forall|p: int, j: u16| 0 <= p < t.ring.len() && j < 16 && #[trigger] read_by(t.ring[p], j) implies bit16(
        t.read_flag,
        j,
    ) by {
        lemma_bit16_clear(s.ring[p].reserve_flag, k as u16, j);
        assert(read_by(s.ring[p], j));
        lemma_bit16_clear(s.read_flag, k as u16, j);
    }
    crate::bits::lemma_popcount_clear(s.read_flag, k as u16);
    assert forall|j: u16| j < 16 implies (#[trigger] bit16(t.read_flag, j) <==> exists|i: int|
        0 <= i < t.cursors.len() && t.cursors[i].read_index == j) by {
        lemma_bit16_clear(s.read_flag, k as u16, j);
        if j != k && bit16(s.read_flag, j) {
            let i = choose|i: int| 0 <= i < s.cursors.len() && s.cursors[i].read_index == j;
            assert(i != c);
            if i < c {
                assert(t.cursors[i].read_index == j);
            } else {
                assert(t.cursors[i - 1].read_index == j);
            }
        }
        if exists|i: int| 0 <= i < t.cursors.len() && t.cursors[i].read_index == j {
            let i = choose|i: int| 0 <= i < t.cursors.len() && t.cursors[i].read_index == j;
            if i < c {
                assert(s.cursors[i].read_index == j);
            } else {
                assert(s.cursors[i + 1].read_index == j);
            }
        }
    }
    assert forall|i: int, j: int| 0 <= i < j < t.cursors.len() implies #[trigger] t.cursors[i].read_index
        != #[trigger] t.cursors[j].read_index by {
        let i2 = if i < c { i } else { i + 1 };
        let j2 = if j < c { j } else { j + 1 };
        assert(s.cursors[i2].read_index != s.cursors[j2].read_index);
    }
    assert forall|i: int, j: int| 0 <= i < j < t.cursors.len() implies #[trigger] t.cursors[i].id
        != #[trigger] t.cursors[j].id by {
        let i2 = if i < c { i } else { i + 1 };
        let j2 = if j < c { j } else { j + 1 };
        assert(s.cursors[i2].id != s.cursors[j2].id);
    }
    assert forall|i: int| 0 <= i < t.cursors.len() implies #[trigger] t.cursors[i].read_index < 16 by {
        let i2 = if i < c { i } else { i + 1 };
        assert(s.cursors[i2].read_index < 16);
    }
    assert forall|i: int| 0 <= i < t.cursors.len() implies in_ring(t.ring, #[trigger] t.cursors[i].audio_index)
        && in_ring(t.ring, t.cursors[i].video_index) by {
        let i2 = if i < c { i } else { i + 1 };
        assert(t.cursors[i] == s.cursors[i2]);
        assert(in_ring(s.ring, s.cursors[i2].audio_index));
    }
    assert forall|i: u32| i < 32 && #[trigger] bit32(t.data_ref, i) implies bit16(t.read_flag, (i / 2) as u16) by {
        lemma_word_with(word_with(s.data_ref, (2 * k + 1) as u32, false), (2 * k) as u32, false, i);
        lemma_word_with(s.data_ref, (2 * k + 1) as u32, false, i);
        lemma_bit16_clear(s.read_flag, k as u16, (i / 2) as u16);
    }
    assert forall|i: u32| i < 32 && #[trigger] bit32(t.recv_ref, i) implies bit16(t.read_flag, (i / 2) as u16) by {
        lemma_word_with(word_with(s.recv_ref, (2 * k + 1) as u32, false), (2 * k) as u32, false, i);
        lemma_word_with(s.recv_ref, (2 * k + 1) as u32, false, i);
        lemma_bit16_clear(s.read_flag, k as u16, (i / 2) as u16);
    }
}

/// The loop's running and wakeup flags play no part in the invariant.
proof fn lemma_wf_flags(s: DispatcherState, running: bool, continue_notify: bool)
    requires
        state_wf(s),
    ensures
        state_wf(DispatcherState { running, continue_notify, ..s }),
{
    reveal(state_wf);
}

/// Replacing the readiness words by words within the slots in use keeps the
/// invariant.
proof fn lemma_wf_words(s: DispatcherState, data_ref: u32, recv_ref: u32)
    requires
        state_wf(s),
        word_ok(data_ref, s.read_flag),
        word_ok(recv_ref, s.read_flag),
    ensures
        state_wf(DispatcherState { data_ref, recv_ref, ..s }),
{
    reveal(state_wf);
}

/// Setting bits of an attached slot, or clearing any, keeps a readiness word
/// within the slots in use.
proof fn lemma_word_for_ok(word: u32, k: u32, kind: MediaType, on: bool, read_flag: u16)
    requires
        k < 16,
        word_ok(word, read_flag),
        on ==> bit16(read_flag, k as u16),
    ensures
        word_ok(word_for(word, k, kind, on), read_flag),
{
    let w = word_for(word, k, kind, on);
    assert forall|i: u32| i < 32 && #[trigger] bit32(w, i) implies bit16(read_flag, (i / 2) as u16) by {
        match kind {
            MediaType::AUDIO => {
                lemma_word_with(word, (2 * k) as u32, on, i);
            },
            MediaType::VIDEO => {
                lemma_word_with(word, (2 * k + 1) as u32, on, i);
            },
            MediaType::AV => {
                lemma_word_with(word_with(word, (2 * k + 1) as u32, on), (2 * k) as u32, on, i);
                lemma_word_with(word, (2 * k + 1) as u32, on, i);
            },
        }
    }
}

} // verus!
