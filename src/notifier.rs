//! Per-consumer cursor state held by the dispatcher.
use vstd::prelude::*;
use crate::buffer::MediaType;
use crate::ring::INVALID_INDEX;

verus! {

/// The dispatcher's record of one attached consumer: its identity, its
/// readiness slot, the next positions it reads on each stream, and its modes.
#[derive(Clone, Copy, Debug)]
pub struct DataNotifier {
    pub id: u32,
    pub audio_index: u32,
    pub video_index: u32,
    pub read_index: u32,
    pub mixed: bool,
    pub key_only: bool,
}

/// The position a `kind` request reads from: the stream's own index, or for a
/// combined request the lesser of the two that are set.
pub open spec fn read_position(n: DataNotifier, kind: MediaType) -> u32 {
    match kind {
        MediaType::AUDIO => n.audio_index,
        MediaType::VIDEO => n.video_index,
        MediaType::AV => {
            if n.audio_index != INVALID_INDEX && n.video_index != INVALID_INDEX {
                if n.audio_index <= n.video_index {
                    n.audio_index
                } else {
                    n.video_index
                }
            } else if n.audio_index == INVALID_INDEX {
                n.video_index
            } else {
                n.audio_index
            }
        },
    }
}

/// The cursor after a `kind` request moved its read position from `from` to
/// `to`; a combined request moves both streams together.
pub open spec fn moved(n: DataNotifier, kind: MediaType, from: u32, to: u32) -> DataNotifier {
    if from == to {
        n
    } else {
        match kind {
            MediaType::AUDIO => DataNotifier { audio_index: to, ..n },
            MediaType::VIDEO => DataNotifier { video_index: to, ..n },
            MediaType::AV => DataNotifier { audio_index: to, video_index: to, ..n },
        }
    }
}

impl DataNotifier {
    /// A cursor for consumer `id` in readiness slot `read_index`, with no
    /// position on either stream.
    pub fn new(id: u32, read_index: u32) -> (r: DataNotifier)
        ensures
            r == (DataNotifier {
                id,
                audio_index: INVALID_INDEX,
                video_index: INVALID_INDEX,
                read_index,
                mixed: false,
                key_only: false,
            }),
    {
        DataNotifier {
            id,
            audio_index: INVALID_INDEX,
            video_index: INVALID_INDEX,
            read_index,
            mixed: false,
            key_only: false,
        }
    }

    /// Links this cursor to consumer `receiver_id`.
    pub fn set_receiver(&mut self, receiver_id: u32)
        ensures
            *final(self) == (DataNotifier { id: receiver_id, ..*old(self) }),
    {
        self.id = receiver_id;
    }

    pub fn is_mix_receiver(&self) -> (r: bool)
        ensures
            r == self.mixed,
    {
        self.mixed
    }

    pub fn is_key_receiver(&self) -> (r: bool)
        ensures
            r == self.key_only,
    {
        self.key_only
    }

    /// The wakeup to hand to this consumer for a ready `kind`: the callback
    /// of that same kind.
    pub fn notify_data_receiver(&self, kind: MediaType) -> (r: (u32, MediaType))
        ensures
            r == (self.id, kind),
    {
        (self.id, kind)
    }

    pub fn get_receiver_read_index(&self, kind: MediaType) -> (r: u32)
        ensures
            r == read_position(*self, kind),
    {
        match kind {
            MediaType::AUDIO => self.audio_index,
            MediaType::VIDEO => self.video_index,
            MediaType::AV => {
                if self.audio_index != INVALID_INDEX && self.video_index != INVALID_INDEX {
                    if self.audio_index <= self.video_index {
                        self.audio_index
                    } else {
                        self.video_index
                    }
                } else if self.audio_index == INVALID_INDEX {
                    self.video_index
                } else {
                    self.audio_index
                }
            },
        }
    }

    /// Moves the read position of a `kind` request from `from` to `to`.
    pub fn update_read_position(&mut self, kind: MediaType, from: u32, to: u32)
        ensures
            *final(self) == moved(*old(self), kind, from, to),
    {
        if from != to {
            match kind {
                MediaType::AUDIO => self.audio_index = to,
                MediaType::VIDEO => self.video_index = to,
                MediaType::AV => {
                    self.audio_index = to;
                    self.video_index = to;
                },
            }
        }
    }

    pub fn set_read_index(&mut self, index: u32)
        ensures
            *final(self) == (DataNotifier { read_index: index, ..*old(self) }),
    {
        self.read_index = index;
    }

    pub fn get_read_index(&self) -> (r: u32)
        ensures
            r == self.read_index,
    {
        self.read_index
    }
}

} // verus!
