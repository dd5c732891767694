//! Backing streams: the capability the store needs from its storage.

use vstd::prelude::*;

use crate::bytes::{extend_bytes, take_bytes};

verus! {

/// The capability contract a backing stream offers the store: contents that
/// a replay can read back, and writes appended at the end. A persistent
/// stream keeps what is written in its contents; an ephemeral one discards
/// it. The store's logic does not depend on which variant is plugged in.
pub trait AsyncRWS: Sized {
    /// The bytes a replay of this stream yields.
    spec fn contents(&self) -> Seq<u8>;

    /// Whether writes are kept in the contents.
    spec fn persistent() -> bool;

    /// Reads the whole stream from the start.
    fn read_all(&mut self) -> (r: Vec<u8>)
        ensures
            r@ == old(self).contents(),
            final(self).contents() == old(self).contents(),
    ;

    /// Appends bytes at the end of the stream.
    fn write_all(&mut self, buf: &Vec<u8>)
        ensures
            final(self).contents() == (if Self::persistent() {
                old(self).contents() + buf@
            } else {
                old(self).contents()
            }),
    ;
}

/// A discard-everything stream for ephemeral stores: reads see an empty log
/// and writes go nowhere.
#[derive(Debug)]
pub struct MemoryNoOpRWS {}

impl MemoryNoOpRWS {
    /// Creates a no-op stream.
    pub fn new() -> (r: Self)
        ensures
            r.contents() == Seq::<u8>::empty(),
    {
        Self {  }
    }
}

impl AsyncRWS for MemoryNoOpRWS {
    open spec fn contents(&self) -> Seq<u8> {
        Seq::empty()
    }

    open spec fn persistent() -> bool {
        false
    }

    fn read_all(&mut self) -> (r: Vec<u8>) {
        Vec::new()
    }

    fn write_all(&mut self, buf: &Vec<u8>) {
    }
}

/// An in-memory buffer stream: writes are kept, and a replay yields every
/// byte written so far. Callers that want durability save its bytes and
/// open the next stream over them.
#[derive(Debug)]
pub struct BufferRWS {
    data: Vec<u8>,
}

impl BufferRWS {
    /// Opens a buffer stream over existing log bytes.
    pub fn new(data: Vec<u8>) -> (r: Self)
        ensures
            r.contents() == data@,
    {
        Self { data }
    }

    /// The bytes of the stream.
    pub fn data(&self) -> (r: &Vec<u8>)
        ensures
            r@ == self.contents(),
    {
        &self.data
    }
}

impl AsyncRWS for BufferRWS {
    closed spec fn contents(&self) -> Seq<u8> {
        self.data@
    }

    open spec fn persistent() -> bool {
        true
    }

    fn read_all(&mut self) -> (r: Vec<u8>) {
        let r = take_bytes(&self.data, 0, self.data.len());
        proof {
            assert(r@ =~= self.data@);
        }
        r
    }

    fn write_all(&mut self, buf: &Vec<u8>) {
        extend_bytes(&mut self.data, buf);
    }
}

} // verus!
