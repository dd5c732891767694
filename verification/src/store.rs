//! The store: an in-memory index over an append-oriented binary log.
//!
//! Opening a store replays the whole log to rebuild the index, the later of
//! two records for one key winning. Reads touch only the index; every
//! mutation appends one record to the backing stream and then updates the
//! index.

use vstd::prelude::*;
use vstd::string::StrSliceExecFns;
use vstd::utf8::{decode_utf8, encode_utf8};

use crate::bytes::{bytes_eq, copy_bytes};
use crate::codec::{
    compressed_record, fields_fit, lemma_compressed_round_trip, lemma_parse_record_bounds,
    lemma_parse_record_prefix, lemma_raw_round_trip, parse_record, raw_body, raw_record,
    ParsedRec,
};
use crate::compress::zstd_unframe;
use crate::entry::{Entry, EntryV, KVEntry};
use crate::result::{KVError, KVResult};
use crate::stream::{AsyncRWS, BufferRWS, MemoryNoOpRWS};

verus! {

/// The outcome of replaying a log: the index it builds, or the error that
/// stops the replay.
pub enum Replay {
    Done(Map<Seq<char>, EntryV>),
    Fail(KVError),
}

/// Replays `b` on top of an already-built index `acc`: each whole record
/// updates its key, a later record winning over an earlier one. Bytes that
/// end inside a record or fail to decode stop the replay with an error.
pub open spec fn replay_from(b: Seq<u8>, acc: Map<Seq<char>, EntryV>) -> Replay
    decreases b.len(),
{
    if b.len() == 0 {
        Replay::Done(acc)
    } else {
        match parse_record(b) {
            ParsedRec::Truncated => Replay::Fail(KVError::Truncated),
            ParsedRec::Invalid => Replay::Fail(KVError::InvalidData),
            ParsedRec::Rec { key, value, mime, used } => if 1 <= used <= b.len() {
                replay_from(b.skip(used), acc.insert(key, EntryV { value, mime }))
            } else {
                Replay::Fail(KVError::InvalidData)
            },
        }
    }
}

/// Replays a whole log from an empty index.
pub open spec fn replay(b: Seq<u8>) -> Replay {
    replay_from(b, Map::empty())
}

/// The index described by a sequence of key and entry pairs, a later pair
/// winning over an earlier one with the same key.
pub open spec fn index_of(s: Seq<(String, Entry)>) -> Map<Seq<char>, EntryV>
    decreases s.len(),
{
    if s.len() == 0 {
        Map::empty()
    } else {
        index_of(s.drop_last()).insert(s.last().0@, s.last().1@)
    }
}

proof fn lemma_index_of_found(s: Seq<(String, Entry)>, i: int)
    requires
        0 <= i < s.len(),
        forall|j: int| i < j < s.len() ==> s[j].0@ != s[i].0@,
    ensures
        index_of(s).contains_key(s[i].0@),
        index_of(s)[s[i].0@] == s[i].1@,
    decreases s.len(),
{
    if i < s.len() - 1 {
        assert forall|j: int| i < j < s.drop_last().len() implies s.drop_last()[j].0@ != s.drop_last(
        )[i].0@ by {
            assert(s.drop_last()[j] == s[j]);
        }
        lemma_index_of_found(s.drop_last(), i);
    }
}

proof fn lemma_index_of_absent(s: Seq<(String, Entry)>, k: Seq<char>)
    requires
        forall|j: int| 0 <= j < s.len() ==> s[j].0@ != k,
    ensures
        !index_of(s).contains_key(k),
    decreases s.len(),
{
    if s.len() > 0 {
        lemma_index_of_absent(s.drop_last(), k);
    }
}

/// Replaying a log made of a cleanly replaying part and a tail is replaying
/// the tail on top of the index the first part builds.
pub proof fn lemma_replay_split(
    log: Seq<u8>,
    tail: Seq<u8>,
    acc: Map<Seq<char>, EntryV>,
    m: Map<Seq<char>, EntryV>,
)
    requires
        replay_from(log, acc) == Replay::Done(m),
    ensures
        replay_from(log + tail, acc) == replay_from(tail, m),
    decreases log.len(),
{
    if log.len() == 0 {
        assert(log + tail =~= tail);
    } else {
        match parse_record(log) {
            ParsedRec::Rec { key, value, mime, used } => {
                lemma_parse_record_bounds(log, key, value, mime, used);
                lemma_parse_record_prefix(log, tail, key, value, mime, used);
                assert((log + tail).skip(used) =~= log.skip(used) + tail);
                lemma_replay_split(
                    log.skip(used),
                    tail,
                    acc.insert(key, EntryV { value, mime }),
                    m,
                );
            },
            _ => {
                assert(false);
            },
        }
    }
}

/// Appending one whole record to a cleanly replaying log replays to the
/// same index with exactly that record's key updated: replay keeps every
/// other key and the appended, later record wins its own.
pub proof fn lemma_replay_append_record(
    log: Seq<u8>,
    rec: Seq<u8>,
    m: Map<Seq<char>, EntryV>,
    key: Seq<char>,
    value: Seq<u8>,
    mime: Seq<char>,
)
    requires
        replay(log) == Replay::Done(m),
        rec.len() >= 1,
        parse_record(rec) == (ParsedRec::Rec { key, value, mime, used: rec.len() as int }),
    ensures
        replay(log + rec) == Replay::Done(m.insert(key, EntryV { value, mime })),
{
    lemma_replay_split(log, rec, Map::empty(), m);
    assert(rec.skip(rec.len() as int) =~= Seq::<u8>::empty());
    assert(replay_from(rec, m) == replay_from(
        rec.skip(rec.len() as int),
        m.insert(key, EntryV { value, mime }),
    ));
    assert(replay_from(Seq::<u8>::empty(), m.insert(key, EntryV { value, mime }))
        == Replay::Done(m.insert(key, EntryV { value, mime })));
}

/// Last write wins: after appending two records for one key to a cleanly
/// replaying log, the replayed index holds the second record's entry under
/// that key.
pub proof fn lemma_last_write_wins(
    log: Seq<u8>,
    m: Map<Seq<char>, EntryV>,
    key: Seq<char>,
    rec_a: Seq<u8>,
    va: Seq<u8>,
    ma: Seq<char>,
    rec_b: Seq<u8>,
    vb: Seq<u8>,
    mb: Seq<char>,
)
    requires
        replay(log) == Replay::Done(m),
        rec_a.len() >= 1,
        parse_record(rec_a) == (ParsedRec::Rec {
            key,
            value: va,
            mime: ma,
            used: rec_a.len() as int,
        }),
        rec_b.len() >= 1,
        parse_record(rec_b) == (ParsedRec::Rec {
            key,
            value: vb,
            mime: mb,
            used: rec_b.len() as int,
        }),
    ensures
        replay(log + rec_a + rec_b) == Replay::Done(
            m.insert(key, EntryV { value: va, mime: ma }).insert(
                key,
                EntryV { value: vb, mime: mb },
            ),
        ),
        m.insert(key, EntryV { value: va, mime: ma }).insert(key, EntryV { value: vb, mime: mb })[
            key] == (EntryV { value: vb, mime: mb }),
{
    lemma_replay_append_record(log, rec_a, m, key, va, ma);
    lemma_replay_append_record(
        log + rec_a,
        rec_b,
        m.insert(key, EntryV { value: va, mime: ma }),
        key,
        vb,
        mb,
    );
}

/// Corruption detection: a log that replays cleanly followed by a tail that
/// ends inside a record replays to the truncation error, never to an index.
pub proof fn lemma_truncated_tail(log: Seq<u8>, tail: Seq<u8>, m: Map<Seq<char>, EntryV>)
    requires
        replay(log) == Replay::Done(m),
        tail.len() >= 1,
        parse_record(tail) == ParsedRec::Truncated,
    ensures
        replay(log + tail) == Replay::Fail(KVError::Truncated),
{
    lemma_replay_split(log, tail, Map::empty(), m);
}

/// A key-value store: an in-memory index over an append-oriented log held
/// in a backing stream. The caller serializes all access; one record is
/// appended per mutation and nothing is ever rewritten.
#[derive(Debug)]
pub struct KVStore<T: AsyncRWS> {
    entries: Vec<(String, Entry)>,
    stream: T,
}

/// An ephemeral store whose backing stream discards every write.
pub type MemoryBackedKVStore = KVStore<MemoryNoOpRWS>;

/// A store over an in-memory buffer whose bytes the caller persists.
pub type BufferBackedKVStore = KVStore<BufferRWS>;

impl<T: AsyncRWS> KVStore<T> {
    /// The index: the current entry under each key.
    pub closed spec fn index(&self) -> Map<Seq<char>, EntryV> {
        index_of(self.entries@)
    }

    /// The log bytes the backing stream holds.
    pub closed spec fn log(&self) -> Seq<u8> {
        self.stream.contents()
    }

    /// Well-formedness: a persistent log replays exactly to the index.
    pub closed spec fn wf(&self) -> bool {
        T::persistent() ==> replay(self.log()) == Replay::Done(self.index())
    }

    /// Opens a store over the given backing stream, replaying its whole log
    /// to rebuild the index. Replay stops cleanly only at a record
    /// boundary; a log that ends inside a record, or holds corrupt bytes,
    /// fails with that error and no store is built.
    pub fn new(stream: T) -> (r: KVResult<KVStore<T>>)
        ensures
            r matches Ok(store) ==> ({
                &&& store.wf()
                &&& replay(stream.contents()) == Replay::Done(store.index())
                &&& store.log() == stream.contents()
            }),
            r matches Err(e) ==> replay(stream.contents()) == Replay::Fail(e),
    {
        let mut s = stream;
        let ghost c0: Seq<u8> = s.contents();
        let log = s.read_all();
        let mut entries: Vec<(String, Entry)> = Vec::new();
        let mut pos: usize = 0;
        proof {
            assert(log@.skip(0) =~= log@);
            assert(index_of(entries@) == Map::<Seq<char>, EntryV>::empty());
        }
        while pos < log.len()
            invariant
                pos <= log@.len(),
                log@ == c0,
                s.contents() == c0,
                c0 == stream.contents(),
                replay_from(log@.skip(pos as int), index_of(entries@)) == replay(log@),
            decreases log@.len() - pos,
        {
            match KVEntry::decode(&log, pos) {
                Err(e) => {
                    proof {
                        assert(log@.skip(pos as int).len() > 0);
                        assert(replay_from(log@.skip(pos as int), index_of(entries@))
                            == Replay::Fail(e));
                    }
                    return Err(e);
                },
                Ok((kv, next)) => {
                    proof {
                        assert(log@.skip(pos as int).skip((next - pos) as int) =~= log@.skip(
                            next as int,
                        ));
                    }
                    let ghost oldentries = entries@;
                    let KVEntry { key, value, mime } = kv;
                    entries.push((key, Entry { value, mime }));
                    proof {
                        assert(entries@.drop_last() =~= oldentries);
                    }
                    pos = next;
                },
            }
        }
        proof {
            assert(log@.skip(pos as int) =~= Seq::<u8>::empty());
        }
        Ok(KVStore { entries, stream: s })
    }

    /// Looks the key up in the index: no log access, no mutation. Returns
    /// the current entry, or nothing when the key is absent.
    pub fn get<'a>(&'a self, key: &str) -> (r: Option<&'a Entry>)
        ensures
            match r {
                Some(e) => self.index().contains_key(key@) && e@ == self.index()[key@],
                None => !self.index().contains_key(key@),
            },
    {
        let kb = key.as_bytes_vec();
        let n = self.entries.len();
        let mut i: usize = n;
        while i > 0
            invariant
                i <= n,
                n == self.entries@.len(),
                kb@ == encode_utf8(key@),
                forall|j: int| i <= j < n ==> self.entries@[j].0@ != key@,
            decreases i,
        {
            i = i - 1;
            let pb = self.entries[i].0.as_str().as_bytes_vec();
            if bytes_eq(&pb, &kb) {
                proof {
                    broadcast use vstd::utf8::encode_utf8_decode_utf8;

                    assert(pb@ == encode_utf8(self.entries@[i as int].0@));
                    assert(encode_utf8(self.entries@[i as int].0@) == encode_utf8(key@));
                    assert(decode_utf8(encode_utf8(self.entries@[i as int].0@))
                        == self.entries@[i as int].0@);
                    assert(decode_utf8(encode_utf8(key@)) == key@);
                    assert(self.entries@[i as int].0@ == key@);
                    lemma_index_of_found(self.entries@, i as int);
                }
                return Some(&self.entries[i].1);
            }
            proof {
                assert(pb@ == encode_utf8(self.entries@[i as int].0@));
                assert(self.entries@[i as int].0@ != key@);
            }
        }
        proof {
            lemma_index_of_absent(self.entries@, key@);
        }
        None
    }

    /// Stores `value` under `key`: encodes one record (compressed exactly
    /// when the value is longer than 1024 bytes), appends it to the backing
    /// stream, and only then updates the index. On an error nothing is
    /// appended and the index is unchanged. A key, value or MIME string too
    /// large for its length prefix is rejected as invalid data; only a
    /// failure of the compression engine is reported as an I/O error.
    pub fn set(&mut self, key: &str, value: Entry) -> (r: KVResult<()>)
        requires
            old(self).wf(),
        ensures
            final(self).wf(),
            r is Ok ==> final(self).index() == old(self).index().insert(key@, value@),
            r is Ok ==> fields_fit(encode_utf8(key@), value.value@, encode_utf8(value.mime@)),
            r is Ok && value.value@.len() <= 1024 && T::persistent() ==> final(self).log() == old(
                self,
            ).log() + raw_record(encode_utf8(key@), value.value@, encode_utf8(value.mime@)),
            r is Ok && value.value@.len() > 1024 && T::persistent() ==> exists|frame: Seq<u8>|
                {
                    &&& #[trigger] zstd_unframe(frame) == Some(
                        raw_body(encode_utf8(key@), value.value@, encode_utf8(value.mime@)),
                    )
                    &&& frame.len() <= 0xffff_ffff
                    &&& final(self).log() == old(self).log() + compressed_record(frame)
                },
            !T::persistent() ==> final(self).log() == old(self).log(),
            r is Err ==> final(self).index() == old(self).index() && final(self).log() == old(
                self,
            ).log(),
            !fields_fit(encode_utf8(key@), value.value@, encode_utf8(value.mime@)) ==> (r matches
                Err(e) && e == KVError::InvalidData),
            value.value@.len() <= 1024 && fields_fit(
                encode_utf8(key@),
                value.value@,
                encode_utf8(value.mime@),
            ) ==> r is Ok,
            r matches Err(e) ==> (e == KVError::InvalidData || e == KVError::IO),
    {
        let kv = KVEntry {
            key: key.to_owned(),
            value: copy_bytes(&value.value),
            mime: value.mime.clone(),
        };
        let compress = value.value.len() > 1024;
        let rec = if compress {
            kv.encode_compressed()
        } else {
            kv.encode_raw()
        };
        match rec {
            Err(e) => Err(e),
            Ok(bytes) => {
                proof {
                    if T::persistent() {
                        if compress {
                            let frame = choose|frame: Seq<u8>|
                                {
                                    &&& #[trigger] zstd_unframe(frame) == Some(
                                        raw_body(
                                            encode_utf8(key@),
                                            value.value@,
                                            encode_utf8(value.mime@),
                                        ),
                                    )
                                    &&& frame.len() <= 0xffff_ffff
                                    &&& bytes@ == compressed_record(frame)
                                };
                            lemma_compressed_round_trip(key@, value.value@, value.mime@, frame);
                        } else {
                            lemma_raw_round_trip(key@, value.value@, value.mime@);
                        }
                        lemma_replay_append_record(
                            old(self).log(),
                            bytes@,
                            old(self).index(),
                            key@,
                            value.value@,
                            value.mime@,
                        );
                    }
                }
                self.stream.write_all(&bytes);
                let ghost oldentries = self.entries@;
                self.entries.push((key.to_owned(), value));
                proof {
                    assert(self.entries@.drop_last() =~= oldentries);
                }
                Ok(())
            },
        }
    }

    /// The backing stream, for callers that persist its bytes.
    pub fn backing(&self) -> (r: &T)
        ensures
            r.contents() == self.log(),
    {
        &self.stream
    }
}

} // verus!
