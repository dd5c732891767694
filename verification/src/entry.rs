//! The values the store holds: an opaque byte value paired with a MIME string.

use vstd::prelude::*;
use vstd::utf8::{decode_utf8, valid_utf8};

use crate::result::KVError;

verus! {

/// Mathematical content of an `Entry`: the value bytes and the MIME text.
pub struct EntryV {
    pub value: Seq<u8>,
    pub mime: Seq<char>,
}

/// An abstract value and MIME type pair: what callers store under a key and
/// what `get` hands back. Immutable once constructed; a mutation of the store
/// replaces the whole entry.
#[derive(Clone, Debug)]
pub struct Entry {
    pub value: Vec<u8>,
    pub mime: String,
}

impl View for Entry {
    type V = EntryV;

    open spec fn view(&self) -> EntryV {
        EntryV { value: self.value@, mime: self.mime@ }
    }
}

impl Entry {
    /// Creates an entry from its value bytes and MIME string.
    pub fn new(value: Vec<u8>, mime: String) -> (r: Self)
        ensures
            r@ == (EntryV { value: value@, mime: mime@ }),
    {
        Self { value, mime }
    }
}

/// Mathematical content of a `KVEntry`: key text, value bytes, MIME text.
pub struct KVEntryV {
    pub key: Seq<char>,
    pub value: Seq<u8>,
    pub mime: Seq<char>,
}

/// One logical record of the log: a key together with the entry stored
/// under it. This is the unit the codec serializes.
#[derive(Debug)]
pub struct KVEntry {
    pub key: String,
    pub value: Vec<u8>,
    pub mime: String,
}

impl View for KVEntry {
    type V = KVEntryV;

    open spec fn view(&self) -> KVEntryV {
        KVEntryV { key: self.key@, value: self.value@, mime: self.mime@ }
    }
}

impl KVEntry {
    /// Creates a record from a key, value bytes, and MIME string.
    pub fn new(key: String, value: Vec<u8>, mime: String) -> (r: Self)
        ensures
            r@ == (KVEntryV { key: key@, value: value@, mime: mime@ }),
    {
        Self { key, value, mime }
    }
}

impl From<KVEntry> for Entry {
    /// Forgets the key, keeping the stored value and MIME type.
    fn from(value: KVEntry) -> (r: Self) {
        Self { value: value.value, mime: value.mime }
    }
}

impl vstd::std_specs::convert::FromSpecImpl<KVEntry> for Entry {
    open spec fn obeys_from_spec() -> bool {
        true
    }

    open spec fn from_spec(v: KVEntry) -> Entry {
        Entry { value: v.value, mime: v.mime }
    }
}

/// Relies on String::from_utf8: it succeeds exactly on valid UTF-8 input and
/// returns the text those bytes encode.
#[verifier::external_body]
pub(crate) fn bytes_to_string(v: Vec<u8>) -> (r: Result<String, KVError>)
    ensures
        r is Ok ==> valid_utf8(v@) && r.unwrap()@ == decode_utf8(v@),
        r is Err ==> !valid_utf8(v@),
        r matches Err(e) ==> e == KVError::InvalidData,
{
    match String::from_utf8(v) {
        Ok(s) => Ok(s),
        Err(_) => Err(KVError::InvalidData),
    }
}

} // verus!
