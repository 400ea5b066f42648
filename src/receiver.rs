//! A consumer's side of the request/receive handshake.
use vstd::prelude::*;
use std::sync::Arc;
use crate::buffer::{Identity, MediaData, MediaType};
use crate::dispatcher::{
    attached, cleared_bits, cursor_pos, notify_result, read_result, DispatchError, Dispatcher,
    DispatcherState, detach_spec,
};
use crate::notifier::DataNotifier;

verus! {

/// Whether the waitline of `kind` has been signalled.
pub open spec fn requesting(r: ReceiverState, kind: MediaType) -> bool {
    match kind {
        MediaType::AUDIO => r.requesting_audio,
        MediaType::VIDEO => r.requesting_video,
        MediaType::AV => r.requesting_media,
    }
}

/// Whether the waitline of `kind` was cancelled by a stop.
pub open spec fn cancelled(r: ReceiverState, kind: MediaType) -> bool {
    match kind {
        MediaType::AUDIO => r.cancelled_audio,
        MediaType::VIDEO => r.cancelled_video,
        MediaType::AV => r.cancelled_media,
    }
}

/// Whether the next request of `kind` is the first since attaching.
pub open spec fn first(r: ReceiverState, kind: MediaType) -> bool {
    match kind {
        MediaType::AUDIO => r.first_audio,
        MediaType::VIDEO => r.first_video,
        MediaType::AV => r.first_mix,
    }
}

/// The state with the waitline of `kind` settled: not signalled, not cancelled.
pub open spec fn settled(r: ReceiverState, kind: MediaType) -> ReceiverState {
    match kind {
        MediaType::AUDIO => ReceiverState { requesting_audio: false, cancelled_audio: false, ..r },
        MediaType::VIDEO => ReceiverState { requesting_video: false, cancelled_video: false, ..r },
        MediaType::AV => ReceiverState { requesting_media: false, cancelled_media: false, ..r },
    }
}

/// The state with the waitline of `kind` signalled.
pub open spec fn signalled(r: ReceiverState, kind: MediaType) -> ReceiverState {
    match kind {
        MediaType::AUDIO => ReceiverState { requesting_audio: true, ..r },
        MediaType::VIDEO => ReceiverState { requesting_video: true, ..r },
        MediaType::AV => ReceiverState { requesting_media: true, ..r },
    }
}

/// The dispatcher state after consumer `id` becomes a mixed consumer.
pub open spec fn mixed_state(s: DispatcherState, id: u32) -> DispatcherState {
    if attached(s, id) {
        let i = cursor_pos(s, id);
        DispatcherState { cursors: s.cursors.update(i, DataNotifier { mixed: true, ..s.cursors[i] }), ..s }
    } else {
        s
    }
}

/// What a consumer's handshake state holds, for contracts.
pub struct ReceiverState {
    pub id: u32,
    pub read_index: u32,
    pub requesting_audio: bool,
    pub requesting_video: bool,
    pub requesting_media: bool,
    pub first_audio: bool,
    pub first_video: bool,
    pub first_mix: bool,
    pub cancelled_audio: bool,
    pub cancelled_video: bool,
    pub cancelled_media: bool,
    pub mix_read: bool,
    pub key_only: bool,
}

/// A consumer: its identity and readiness slot, one waitline per request
/// kind (audio, video, combined), and its modes.  Blocking on a waitline is
/// left to the caller, which waits until `is_requesting` holds.
#[derive(Debug)]
pub struct Receiver {
    id: u32,
    read_index: u32,
    requesting_audio: bool,
    requesting_video: bool,
    requesting_media: bool,
    first_audio: bool,
    first_video: bool,
    first_mix: bool,
    cancelled_audio: bool,
    cancelled_video: bool,
    cancelled_media: bool,
    mix_read: bool,
    key_only: bool,
}

impl View for Receiver {
    type V = ReceiverState;

    closed spec fn view(&self) -> ReceiverState {
        ReceiverState {
            id: self.id,
            read_index: self.read_index,
            requesting_audio: self.requesting_audio,
            requesting_video: self.requesting_video,
            requesting_media: self.requesting_media,
            first_audio: self.first_audio,
            first_video: self.first_video,
            first_mix: self.first_mix,
            cancelled_audio: self.cancelled_audio,
            cancelled_video: self.cancelled_video,
            cancelled_media: self.cancelled_media,
            mix_read: self.mix_read,
            key_only: self.key_only,
        }
    }
}

impl Identity for Receiver {
    fn get_id(&self) -> u32 {
        self.id
    }
}

impl Receiver {
    /// A consumer with identity 0.
    pub fn new() -> (r: Receiver)
        ensures
            r@ == Receiver::fresh(0),
    {
        Receiver::with_id(0)
    }

    /// The state of a consumer that has just been made with identity `id`.
    pub open spec fn fresh(id: u32) -> ReceiverState {
        ReceiverState {
            id,
            read_index: 0,
            requesting_audio: false,
            requesting_video: false,
            requesting_media: false,
            first_audio: true,
            first_video: true,
            first_mix: true,
            cancelled_audio: false,
            cancelled_video: false,
            cancelled_media: false,
            mix_read: false,
            key_only: false,
        }
    }

    /// A consumer with identity `id`.
    pub fn with_id(id: u32) -> (r: Receiver)
        ensures
            r@ == Receiver::fresh(id),
    {
        Receiver {
            id,
            read_index: 0,
            requesting_audio: false,
            requesting_video: false,
            requesting_media: false,
            first_audio: true,
            first_video: true,
            first_mix: true,
            cancelled_audio: false,
            cancelled_video: false,
            cancelled_media: false,
            mix_read: false,
            key_only: false,
        }
    }

    pub fn id(&self) -> (r: u32)
        ensures
            r == self@.id,
    {
        self.id
    }

    pub fn is_mix_read(&self) -> (r: bool)
        ensures
            r == self@.mix_read,
    {
        self.mix_read
    }

    pub fn is_key_read(&self) -> (r: bool)
        ensures
            r == self@.key_only,
    {
        self.key_only
    }

    pub fn set_read_index(&mut self, index: u32)
        ensures
            final(self)@ == (ReceiverState { read_index: index, ..old(self)@ }),
    {
        self.read_index = index;
    }

    pub fn get_read_index(&self) -> (r: u32)
        ensures
            r == self@.read_index,
    {
        self.read_index
    }

    /// The dispatcher's callback for a ready `kind`: signals that waitline
    /// unless it is already signalled and not yet drained.  Returns whether
    /// the caller must wake the waiter.
    pub fn on_data(&mut self, kind: MediaType) -> (r: bool)
        ensures
            r == !requesting(old(self)@, kind),
            final(self)@ == signalled(old(self)@, kind),
    {
        match kind {
            MediaType::AUDIO => {
                let was = self.requesting_audio;
                self.requesting_audio = true;
                !was
            },
            MediaType::VIDEO => {
                let was = self.requesting_video;
                self.requesting_video = true;
                !was
            },
            MediaType::AV => {
                let was = self.requesting_media;
                self.requesting_media = true;
                !was
            },
        }
    }

    /// `on_data` for the combined waitline.
    pub fn on_media_data(&mut self) -> (r: bool)
        ensures
            r == !old(self)@.requesting_media,
            final(self)@ == signalled(old(self)@, MediaType::AV),
    {
        self.on_data(MediaType::AV)
    }

    /// `on_data` for the audio waitline.
    pub fn on_audio_data(&mut self) -> (r: bool)
        ensures
            r == !old(self)@.requesting_audio,
            final(self)@ == signalled(old(self)@, MediaType::AUDIO),
    {
        self.on_data(MediaType::AUDIO)
    }

    /// `on_data` for the video waitline.
    pub fn on_video_data(&mut self) -> (r: bool)
        ensures
            r == !old(self)@.requesting_video,
            final(self)@ == signalled(old(self)@, MediaType::VIDEO),
    {
        self.on_data(MediaType::VIDEO)
    }

    /// The wait predicate of a `kind` request: true once that waitline has
    /// been signalled (or cancelled).
    pub fn is_requesting(&self, kind: MediaType) -> (r: bool)
        ensures
            r == requesting(self@, kind),
    {
        match kind {
            MediaType::AUDIO => self.requesting_audio,
            MediaType::VIDEO => self.requesting_video,
            MediaType::AV => self.requesting_media,
        }
    }

    /// Forces every pending request to return: all three waitlines are
    /// signalled and marked cancelled.  The caller wakes all waiters.
    pub fn notify_read_stop(&mut self)
        ensures
            final(self)@ == (ReceiverState {
                requesting_audio: true,
                requesting_video: true,
                requesting_media: true,
                cancelled_audio: true,
                cancelled_video: true,
                cancelled_media: true,
                ..old(self)@
            }),
    {
        self.requesting_audio = true;
        self.requesting_video = true;
        self.requesting_media = true;
        self.cancelled_audio = true;
        self.cancelled_video = true;
        self.cancelled_media = true;
    }

    /// Turns this consumer's own key-only flag on or off, before it is
    /// attached anywhere.
    pub fn set_key_only(&mut self, enable: bool)
        ensures
            final(self)@ == (ReceiverState { key_only: enable, ..old(self)@ }),
    {
        self.key_only = enable;
    }

    /// Turns key-only delivery on or off, here and in `dispatcher`; turning
    /// it on withdraws a pending video wakeup.
    pub fn set_key_mode(&mut self, dispatcher: &mut Dispatcher, enable: bool)
        requires
            old(dispatcher).inv(),
        ensures
            final(dispatcher).inv(),
            final(self)@ == (ReceiverState { key_only: enable, ..old(self)@ }),
            attached(old(dispatcher)@, old(self)@.id) ==> {
                let i = cursor_pos(old(dispatcher)@, old(self)@.id);
                let c = old(dispatcher)@.cursors[i];
                final(dispatcher)@ == (DispatcherState {
                    cursors: old(dispatcher)@.cursors.update(i, DataNotifier { key_only: enable, ..c }),
                    data_ref: if enable {
                        crate::dispatcher::word_for(old(dispatcher)@.data_ref, c.read_index, MediaType::VIDEO, false)
                    } else {
                        old(dispatcher)@.data_ref
                    },
                    ..old(dispatcher)@
                })
            },
            !attached(old(dispatcher)@, old(self)@.id) ==> final(dispatcher)@ == old(dispatcher)@,
    {
        self.set_key_only(enable);
        dispatcher.set_key_mode(self.id, enable);
    }

    /// The first half of a synchronous read: the first request of each kind
    /// announces readiness to `dispatcher` (a combined request also makes
    /// this a mixed consumer).  The caller then waits until `is_requesting`
    /// holds and calls `complete_read`.
    pub fn prepare_read(&mut self, dispatcher: &mut Dispatcher, kind: MediaType)
        requires
            old(dispatcher).inv(),
        ensures
            final(dispatcher).inv(),
            !first(old(self)@, kind) ==> final(self)@ == old(self)@ && final(dispatcher)@ == old(dispatcher)@,
            first(old(self)@, kind) && kind != MediaType::AV ==> final(dispatcher)@ == notify_result(
                old(dispatcher)@,
                old(self)@.id,
                kind,
            ).0,
            first(old(self)@, kind) && kind == MediaType::AUDIO ==> final(self)@ == (ReceiverState {
                first_audio: false,
                ..old(self)@
            }),
            first(old(self)@, kind) && kind == MediaType::VIDEO ==> final(self)@ == (ReceiverState {
                first_video: false,
                ..old(self)@
            }),
            first(old(self)@, kind) && kind == MediaType::AV ==> final(self)@ == (ReceiverState {
                first_mix: false,
                mix_read: true,
                ..old(self)@
            }) && final(dispatcher)@ == notify_result(
                mixed_state(old(dispatcher)@, old(self)@.id),
                old(self)@.id,
                kind,
            ).0,
    {
        match kind {
            MediaType::AUDIO => {
                if self.first_audio {
                    dispatcher.notify_read_ready(self.id, kind);
                    self.first_audio = false;
                }
            },
            MediaType::VIDEO => {
                if self.first_video {
                    dispatcher.notify_read_ready(self.id, kind);
                    self.first_video = false;
                }
            },
            MediaType::AV => {
                if self.first_mix {
                    dispatcher.set_mix_mode(self.id);
                    dispatcher.notify_read_ready(self.id, kind);
                    self.mix_read = true;
                    self.first_mix = false;
                }
            },
        }
    }

    /// The second half of a synchronous read, once the waitline of `kind` has
    /// been signalled.  A cancelled waitline returns `(false, None)` and
    /// touches nothing else.  Otherwise the consumer's bits for `kind` are
    /// withdrawn, the frame is read, and readiness is announced again.
    /// Either way the waitline is settled.
    pub fn complete_read(&mut self, dispatcher: &mut Dispatcher, kind: MediaType) -> (r: (bool, Option<Arc<MediaData>>))
        requires
            old(dispatcher).inv(),
        ensures
            final(dispatcher).inv(),
            final(self)@ == settled(old(self)@, kind),
            cancelled(old(self)@, kind) ==> r == (false, None::<Arc<MediaData>>) && final(dispatcher)@ == old(dispatcher)@,
            !cancelled(old(self)@, kind) ==> {
                let rd = read_result(cleared_bits(old(dispatcher)@, old(self)@.read_index, kind), old(self)@.id, kind);
                &&& r == (rd.0, rd.1)
                &&& final(dispatcher)@ == notify_result(rd.2, old(self)@.id, kind).0
            },
    {
        let was_cancelled = match kind {
            MediaType::AUDIO => self.cancelled_audio,
            MediaType::VIDEO => self.cancelled_video,
            MediaType::AV => self.cancelled_media,
        };
        match kind {
            MediaType::AUDIO => {
                self.requesting_audio = false;
                self.cancelled_audio = false;
            },
            MediaType::VIDEO => {
                self.requesting_video = false;
                self.cancelled_video = false;
            },
            MediaType::AV => {
                self.requesting_media = false;
                self.cancelled_media = false;
            },
        }
        if was_cancelled {
            return (false, None);
        }
        dispatcher.clear_data_bit(self.read_index, kind);
        dispatcher.clear_read_bit(self.read_index, kind);
        let r = dispatcher.read_buffer_data(self.id, kind);
        dispatcher.notify_read_ready(self.id, kind);
        r
    }

    /// Leaves `dispatcher`: pending requests are cancelled first, then the
    /// consumer is detached.
    pub fn detach_from(&mut self, dispatcher: &mut Dispatcher) -> (r: Result<(), DispatchError>)
        requires
            old(dispatcher).inv(),
        ensures
            final(dispatcher).inv(),
            final(self)@ == (ReceiverState {
                requesting_audio: true,
                requesting_video: true,
                requesting_media: true,
                cancelled_audio: true,
                cancelled_video: true,
                cancelled_media: true,
                ..old(self)@
            }),
            attached(old(dispatcher)@, old(self)@.id) ==> r == Ok::<(), DispatchError>(()) && final(dispatcher)@
                == detach_spec(old(dispatcher)@, cursor_pos(old(dispatcher)@, old(self)@.id)),
            !attached(old(dispatcher)@, old(self)@.id) ==> r == Err::<(), DispatchError>(DispatchError::NotAttached)
                && final(dispatcher)@ == old(dispatcher)@,
    {
        self.notify_read_stop();
        dispatcher.detach_receiver(self.id)
    }

    /// Makes the next request of each kind announce readiness first.
    pub fn notify_read_start(&mut self)
        ensures
            final(self)@ == (ReceiverState {
                first_audio: true,
                first_video: true,
                first_mix: true,
                ..old(self)@
            }),
    {
        self.first_audio = true;
        self.first_video = true;
        self.first_mix = true;
    }
}

} // verus!
