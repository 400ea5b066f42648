//! Frames and their payload buffers.
use vstd::prelude::*;

verus! {

/// The kind of a frame, or the kind of a read request.  `AV` as a request
/// asks for audio and video combined in ring order.
#[derive(Clone, Copy, Debug, PartialEq, Eq, Structural)]
pub enum MediaType {
    AV,
    AUDIO,
    VIDEO,
}

impl Default for MediaType {
    fn default() -> (r: MediaType)
        ensures
            r == MediaType::AV,
    {
        MediaType::AV
    }
}

/// Something that carries a numeric identity.
pub trait Identity {
    fn get_id(&self) -> u32;
}

/// An owned payload: a declared size and capacity, and the bytes themselves.
#[derive(Debug)]
pub struct Buffer {
    size: usize,
    capacity: usize,
    data: Vec<u8>,
}

impl View for Buffer {
    type V = Seq<u8>;

    closed spec fn view(&self) -> Seq<u8> {
        self.data@
    }
}

impl Buffer {
    pub closed spec fn spec_size(&self) -> usize {
        self.size
    }

    pub closed spec fn spec_capacity(&self) -> usize {
        self.capacity
    }

    /// An empty buffer that declares `size` and reserves room for `capacity` bytes.
    pub fn new(size: usize, capacity: usize) -> (r: Buffer)
        ensures
            r.spec_size() == size,
            r.spec_capacity() == capacity,
            r@ == Seq::<u8>::empty(),
    {
        Buffer { size, capacity, data: Vec::with_capacity(capacity) }
    }

    pub fn size(&self) -> (r: usize)
        ensures
            r == self.spec_size(),
    {
        self.size
    }

    pub fn capacity(&self) -> (r: usize)
        ensures
            r == self.spec_capacity(),
    {
        self.capacity
    }

    /// The bytes held.
    pub fn data(&self) -> (r: &Vec<u8>)
        ensures
            r@ == self@,
    {
        &self.data
    }

    /// Replaces the bytes held by `new_data`.
    pub fn replace(&mut self, new_data: Vec<u8>)
        ensures
            final(self)@ == new_data@,
            final(self).spec_size() == old(self).spec_size(),
            final(self).spec_capacity() == old(self).spec_capacity(),
    {
        self.data = new_data;
    }

    /// Moves every byte of `append_data` to the end of the bytes held.
    pub fn append(&mut self, append_data: &mut Vec<u8>)
        ensures
            final(self)@ == old(self)@ + old(append_data)@,
            final(append_data)@ == Seq::<u8>::empty(),
            final(self).spec_size() == old(self).spec_size(),
            final(self).spec_capacity() == old(self).spec_capacity(),
    {
        self.data.append(append_data);
    }

    /// Records a new capacity and reserves room for that many more bytes.
    pub fn set_capacity(&mut self, capacity: usize)
        ensures
            final(self)@ == old(self)@,
            final(self).spec_size() == old(self).spec_size(),
            final(self).spec_capacity() == capacity,
    {
        self.data.reserve(capacity);
        self.capacity = capacity;
    }
}

impl Default for Buffer {
    fn default() -> (r: Buffer)
        ensures
            r.spec_size() == 0,
            r.spec_capacity() == 0,
            r@ == Seq::<u8>::empty(),
    {
        Buffer { size: 0, capacity: 0, data: Vec::new() }
    }
}

/// One frame: its kind, presentation timestamp, key-frame flag and payload.
#[derive(Debug)]
pub struct MediaData {
    pub key_frame: bool,
    pub pts: u64,
    pub media_type: MediaType,
    pub buff: Buffer,
}

impl Default for MediaData {
    fn default() -> (r: MediaData)
        ensures
            !r.key_frame,
            r.pts == 0,
            r.media_type == MediaType::AV,
            r.buff@ == Seq::<u8>::empty(),
    {
        MediaData { key_frame: false, pts: 0, media_type: MediaType::AV, buff: Buffer::default() }
    }
}

} // verus!
