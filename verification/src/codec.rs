//! The record codec: bit-exact serialization of one record to and from bytes.
//!
//! A record is a flags byte followed by a body. With the compression bit
//! clear the body is the three length-prefixed fields in order key, value,
//! MIME. With the bit set the body is a four-byte frame length and a
//! compression frame whose decompressed content is exactly the raw body.

use vstd::prelude::*;
use vstd::string::StringSliceAdditionalSpecFns;
use vstd::utf8::{decode_utf8, encode_utf8, valid_utf8};

use crate::bytes::{
    extend_bytes, le16, le32, lemma_le16_roundtrip, lemma_le32_roundtrip, push_u16, push_u32,
    read_u16_at, read_u32_at, take_bytes, u16_le, u32_le,
};
use crate::compress::{zstd_compress, zstd_decompress, zstd_unframe};
use crate::entry::{KVEntry, KVEntryV};
use crate::result::{KVError, KVResult};

verus! {

/// Whether three fields fit their length prefixes: two bytes for the key,
/// four for the value, two for the MIME string.
pub open spec fn fields_fit(k: Seq<u8>, v: Seq<u8>, m: Seq<u8>) -> bool {
    k.len() <= 0xffff && v.len() <= 0xffff_ffff && m.len() <= 0xffff
}

/// The raw body: the three length-prefixed fields in order key, value, MIME.
pub open spec fn raw_body(k: Seq<u8>, v: Seq<u8>, m: Seq<u8>) -> Seq<u8> {
    u16_le(k.len() as u16) + k + u32_le(v.len() as u32) + v + u16_le(m.len() as u16) + m
}

/// A whole raw record: a zero flags byte, then the raw body.
pub open spec fn raw_record(k: Seq<u8>, v: Seq<u8>, m: Seq<u8>) -> Seq<u8> {
    seq![0u8] + raw_body(k, v, m)
}

/// A whole compressed record: a flags byte with the compression bit set,
/// the frame length, then the frame itself.
pub open spec fn compressed_record(frame: Seq<u8>) -> Seq<u8> {
    seq![0x80u8] + u32_le(frame.len() as u32) + frame
}

/// Whether a flags byte marks a compressed record (bit 7).
pub open spec fn compressed_flag(flags: u8) -> bool {
    flags & 0x80 != 0
}

/// Parses a raw body from the front of `b`: the three fields and the number
/// of bytes consumed, or nothing when `b` ends inside a declared field.
pub open spec fn parse_raw_body(b: Seq<u8>) -> Option<(Seq<u8>, Seq<u8>, Seq<u8>, int)> {
    if b.len() < 2 {
        None
    } else {
        let klen = le16(b[0], b[1]) as int;
        if b.len() < 2 + klen {
            None
        } else {
            let k = b.subrange(2, 2 + klen);
            let p = 2 + klen;
            if b.len() < p + 4 {
                None
            } else {
                let vlen = le32(b[p], b[p + 1], b[p + 2], b[p + 3]) as int;
                if b.len() < p + 4 + vlen {
                    None
                } else {
                    let v = b.subrange(p + 4, p + 4 + vlen);
                    let q = p + 4 + vlen;
                    if b.len() < q + 2 {
                        None
                    } else {
                        let mlen = le16(b[q], b[q + 1]) as int;
                        if b.len() < q + 2 + mlen {
                            None
                        } else {
                            Some((k, v, b.subrange(q + 2, q + 2 + mlen), q + 2 + mlen))
                        }
                    }
                }
            }
        }
    }
}

/// What parsing one record from the front of a byte sequence yields.
pub enum ParsedRec {
    /// The bytes end inside the record (or there are none at all).
    Truncated,
    /// The bytes are corrupt: an undecodable frame, a frame whose content is
    /// not a whole raw body, or key or MIME bytes that are not UTF-8.
    Invalid,
    /// A whole record: its decoded fields and the bytes it occupies.
    Rec { key: Seq<char>, value: Seq<u8>, mime: Seq<char>, used: int },
}

/// Turns parsed byte fields into a record, rejecting text that is not UTF-8.
pub open spec fn rec_of(k: Seq<u8>, v: Seq<u8>, m: Seq<u8>, used: int) -> ParsedRec {
    if valid_utf8(k) && valid_utf8(m) {
        ParsedRec::Rec { key: decode_utf8(k), value: v, mime: decode_utf8(m), used }
    } else {
        ParsedRec::Invalid
    }
}

/// Parses one record from the front of `b`.
pub open spec fn parse_record(b: Seq<u8>) -> ParsedRec {
    if b.len() < 1 {
        ParsedRec::Truncated
    } else if compressed_flag(b[0]) {
        if b.len() < 5 {
            ParsedRec::Truncated
        } else {
            let flen = le32(b[1], b[2], b[3], b[4]) as int;
            if b.len() < 5 + flen {
                ParsedRec::Truncated
            } else {
                match zstd_unframe(b.subrange(5, 5 + flen)) {
                    Option::None => ParsedRec::Invalid,
                    Option::Some(body) => match parse_raw_body(body) {
                        Option::None => ParsedRec::Invalid,
                        Option::Some((k, v, m, _used)) => rec_of(k, v, m, 5 + flen),
                    },
                }
            }
        }
    } else {
        match parse_raw_body(b.skip(1)) {
            Option::None => ParsedRec::Truncated,
            Option::Some((k, v, m, used)) => rec_of(k, v, m, 1 + used),
        }
    }
}

/// A parsed record occupies at least one byte and no more than were given.
pub proof fn lemma_parse_record_bounds(b: Seq<u8>, k: Seq<char>, v: Seq<u8>, m: Seq<char>, used: int)
    requires
        parse_record(b) == (ParsedRec::Rec { key: k, value: v, mime: m, used }),
    ensures
        1 <= used <= b.len(),
{
}

/// A successful raw-body parse is unchanged by appending further bytes.
proof fn lemma_parse_raw_body_prefix(b: Seq<u8>, ext: Seq<u8>)
    requires
        parse_raw_body(b) is Some,
    ensures
        parse_raw_body(b + ext) == parse_raw_body(b),
{
    let c = b + ext;
    let klen = le16(b[0], b[1]) as int;
    let p = 2 + klen;
    let vlen = le32(b[p], b[p + 1], b[p + 2], b[p + 3]) as int;
    let q = p + 4 + vlen;
    let mlen = le16(b[q], b[q + 1]) as int;
    assert(c.subrange(2, 2 + klen) =~= b.subrange(2, 2 + klen));
    assert(c.subrange(p + 4, p + 4 + vlen) =~= b.subrange(p + 4, p + 4 + vlen));
    assert(c.subrange(q + 2, q + 2 + mlen) =~= b.subrange(q + 2, q + 2 + mlen));
}

/// A successful record parse is unchanged by appending further bytes.
pub proof fn lemma_parse_record_prefix(
    b: Seq<u8>,
    ext: Seq<u8>,
    k: Seq<char>,
    v: Seq<u8>,
    m: Seq<char>,
    used: int,
)
    requires
        parse_record(b) == (ParsedRec::Rec { key: k, value: v, mime: m, used }),
    ensures
        parse_record(b + ext) == parse_record(b),
{
    let c = b + ext;
    assert(c[0] == b[0]);
    if compressed_flag(b[0]) {
        let flen = le32(b[1], b[2], b[3], b[4]) as int;
        assert(c[1] == b[1] && c[2] == b[2] && c[3] == b[3] && c[4] == b[4]);
        assert(c.subrange(5, 5 + flen) =~= b.subrange(5, 5 + flen));
    } else {
        assert(c.skip(1) =~= b.skip(1) + ext);
        lemma_parse_raw_body_prefix(b.skip(1), ext);
    }
}

/// Parsing the raw body built from three fitting fields yields those fields
/// and consumes the whole body.
pub proof fn lemma_parse_raw_body_roundtrip(k: Seq<u8>, v: Seq<u8>, m: Seq<u8>)
    requires
        fields_fit(k, v, m),
    ensures
        parse_raw_body(raw_body(k, v, m)) == Some(
            (k, v, m, raw_body(k, v, m).len() as int),
        ),
{
    let b = raw_body(k, v, m);
    let kl = k.len() as u16;
    let vl = v.len() as u32;
    let ml = m.len() as u16;
    lemma_le16_roundtrip(kl);
    lemma_le32_roundtrip(vl);
    lemma_le16_roundtrip(ml);
    assert(b.len() == 2 + k.len() + 4 + v.len() + 2 + m.len());
    assert(b[0] == u16_le(kl)[0] && b[1] == u16_le(kl)[1]);
    assert(le16(b[0], b[1]) as int == k.len());
    let p = 2 + k.len() as int;
    assert(b.subrange(2, p) =~= k);
    assert(b[p] == u32_le(vl)[0] && b[p + 1] == u32_le(vl)[1] && b[p + 2] == u32_le(vl)[2]
        && b[p + 3] == u32_le(vl)[3]);
    assert(le32(b[p], b[p + 1], b[p + 2], b[p + 3]) as int == v.len());
    let q = p + 4 + v.len() as int;
    assert(b.subrange(p + 4, q) =~= v);
    assert(b[q] == u16_le(ml)[0] && b[q + 1] == u16_le(ml)[1]);
    assert(le16(b[q], b[q + 1]) as int == m.len());
    assert(b.subrange(q + 2, q + 2 + m.len() as int) =~= m);
}

/// Raw round trip: a raw record built from any key, value and MIME text
/// whose encodings fit their length prefixes parses back to exactly those
/// fields, consuming the whole record.
pub proof fn lemma_raw_round_trip(key: Seq<char>, value: Seq<u8>, mime: Seq<char>)
    requires
        fields_fit(encode_utf8(key), value, encode_utf8(mime)),
    ensures
        parse_record(raw_record(encode_utf8(key), value, encode_utf8(mime)))
            == (ParsedRec::Rec {
            key,
            value,
            mime,
            used: raw_record(encode_utf8(key), value, encode_utf8(mime)).len() as int,
        }),
{
    broadcast use vstd::utf8::encode_utf8_valid_utf8, vstd::utf8::encode_utf8_decode_utf8;

    let k = encode_utf8(key);
    let m = encode_utf8(mime);
    let r = raw_record(k, value, m);
    assert(!compressed_flag(0u8)) by (bit_vector);
    assert(r[0] == 0u8);
    assert(r.skip(1) =~= raw_body(k, value, m));
    lemma_parse_raw_body_roundtrip(k, value, m);
}

/// Compressed round trip: a compressed record whose frame decompresses to
/// the raw body of the given fields parses back to exactly those fields,
/// consuming the whole record.
pub proof fn lemma_compressed_round_trip(
    key: Seq<char>,
    value: Seq<u8>,
    mime: Seq<char>,
    frame: Seq<u8>,
)
    requires
        fields_fit(encode_utf8(key), value, encode_utf8(mime)),
        zstd_unframe(frame) == Some(raw_body(encode_utf8(key), value, encode_utf8(mime))),
        frame.len() <= 0xffff_ffff,
    ensures
        parse_record(compressed_record(frame)) == (ParsedRec::Rec {
            key,
            value,
            mime,
            used: 5 + frame.len() as int,
        }),
{
    broadcast use vstd::utf8::encode_utf8_valid_utf8, vstd::utf8::encode_utf8_decode_utf8;

    let k = encode_utf8(key);
    let m = encode_utf8(mime);
    let fl = frame.len() as u32;
    let r = compressed_record(frame);
    assert(compressed_flag(0x80u8)) by (bit_vector);
    assert(r[0] == 0x80u8);
    lemma_le32_roundtrip(fl);
    assert(r[1] == u32_le(fl)[0] && r[2] == u32_le(fl)[1] && r[3] == u32_le(fl)[2] && r[4]
        == u32_le(fl)[3]);
    assert(le32(r[1], r[2], r[3], r[4]) as int == frame.len());
    assert(r.subrange(5, 5 + frame.len() as int) =~= frame);
    lemma_parse_raw_body_roundtrip(k, value, m);
}

impl KVEntry {
    /// Whether this record's fields fit their length prefixes.
    pub open spec fn fits(&self) -> bool {
        fields_fit(encode_utf8(self.key@), self.value@, encode_utf8(self.mime@))
    }

    /// Serializes the three length-prefixed fields of this record.
    fn encode_body(&self) -> (r: KVResult<Vec<u8>>)
        ensures
            r is Ok <==> self.fits(),
            r is Ok ==> r.unwrap()@ == raw_body(
                encode_utf8(self.key@),
                self.value@,
                encode_utf8(self.mime@),
            ),
            r matches Err(e) ==> e == KVError::InvalidData,
    {
        let ks = self.key.as_str();
        let ms = self.mime.as_str();
        let kb = ks.as_bytes_vec();
        let mb = ms.as_bytes_vec();
        let klen = kb.len();
        let vlen = self.value.len();
        let mlen = mb.len();
        proof {
            assert(kb@ == encode_utf8(self.key@));
            assert(mb@ == encode_utf8(self.mime@));
        }
        if klen > 0xffff || vlen > (u32::MAX as usize) || mlen > 0xffff {
            return Err(KVError::InvalidData);
        }
        let mut out: Vec<u8> = Vec::new();
        push_u16(&mut out, klen as u16);
        extend_bytes(&mut out, &kb);
        push_u32(&mut out, vlen as u32);
        extend_bytes(&mut out, &self.value);
        push_u16(&mut out, mlen as u16);
        extend_bytes(&mut out, &mb);
        proof {
            assert(out@ =~= raw_body(
                encode_utf8(self.key@),
                self.value@,
                encode_utf8(self.mime@),
            ));
        }
        Ok(out)
    }

    /// Serializes this record without compressing the value: a zero flags
    /// byte, then the raw body.
    pub fn encode_raw(&self) -> (r: KVResult<Vec<u8>>)
        ensures
            r is Ok <==> self.fits(),
            r is Ok ==> r.unwrap()@ == raw_record(
                encode_utf8(self.key@),
                self.value@,
                encode_utf8(self.mime@),
            ),
            r matches Err(e) ==> e == KVError::InvalidData,
    {
        match self.encode_body() {
            Err(e) => Err(e),
            Ok(body) => {
                let mut out: Vec<u8> = Vec::new();
                out.push(0u8);
                extend_bytes(&mut out, &body);
                proof {
                    assert(out@ =~= raw_record(
                        encode_utf8(self.key@),
                        self.value@,
                        encode_utf8(self.mime@),
                    ));
                }
                Ok(out)
            },
        }
    }

    /// Serializes this record with its body compressed: a flags byte with
    /// the compression bit set, the frame length, then the frame.
    pub fn encode_compressed(&self) -> (r: KVResult<Vec<u8>>)
        ensures
            r is Ok ==> self.fits(),
            r is Ok ==> exists|frame: Seq<u8>|
                {
                    &&& #[trigger] zstd_unframe(frame) == Some(
                        raw_body(encode_utf8(self.key@), self.value@, encode_utf8(self.mime@)),
                    )
                    &&& frame.len() <= 0xffff_ffff
                    &&& r.unwrap()@ == compressed_record(frame)
                },
            !self.fits() ==> (r matches Err(e) && e == KVError::InvalidData),
            r matches Err(e) ==> (e == KVError::InvalidData || e == KVError::IO),
    {
        match self.encode_body() {
            Err(e) => Err(e),
            Ok(body) => match zstd_compress(&body) {
                None => Err(KVError::IO),
                Some(frame) => {
                    if frame.len() > (u32::MAX as usize) {
                        return Err(KVError::InvalidData);
                    }
                    let mut out: Vec<u8> = Vec::new();
                    out.push(0x80u8);
                    push_u32(&mut out, frame.len() as u32);
                    extend_bytes(&mut out, &frame);
                    proof {
                        assert(out@ =~= compressed_record(frame@));
                    }
                    Ok(out)
                },
            },
        }
    }

    /// Deserializes the raw body found in `b` at `start`, rebuilding the key
    /// and MIME strings from their UTF-8 bytes.
    fn decode_raw_body(b: &Vec<u8>, start: usize) -> (r: KVResult<(KVEntry, usize)>)
        requires
            start <= b@.len(),
        ensures
            ({
                let p = parse_raw_body(b@.skip(start as int));
                match p {
                    Option::None => r matches Err(e) && e == KVError::Truncated,
                    Option::Some((k, v, m, used)) => if valid_utf8(k) && valid_utf8(m) {
                        &&& r is Ok
                        &&& r.unwrap().0@ == (KVEntryV {
                            key: decode_utf8(k),
                            value: v,
                            mime: decode_utf8(m),
                        })
                        &&& r.unwrap().1 == start + used
                    } else {
                        r matches Err(e) && e == KVError::InvalidData
                    },
                }
            }),
    {
        let ghost s = b@.skip(start as int);
        let blen = b.len();
        if blen - start < 2 {
            return Err(KVError::Truncated);
        }
        let klen = read_u16_at(b, start) as usize;
        proof {
            assert(s[0] == b@[start as int] && s[1] == b@[start as int + 1]);
        }
        if blen - start - 2 < klen {
            return Err(KVError::Truncated);
        }
        let kb = take_bytes(b, start + 2, klen);
        let p = start + 2 + klen;
        proof {
            assert(kb@ =~= s.subrange(2, 2 + klen as int));
        }
        if blen - p < 4 {
            return Err(KVError::Truncated);
        }
        let vlen = read_u32_at(b, p) as usize;
        proof {
            let sp = 2 + klen as int;
            assert(s[sp] == b@[p as int]);
            assert(s[sp + 1] == b@[p as int + 1]);
            assert(s[sp + 2] == b@[p as int + 2]);
            assert(s[sp + 3] == b@[p as int + 3]);
        }
        if blen - p - 4 < vlen {
            return Err(KVError::Truncated);
        }
        let value = take_bytes(b, p + 4, vlen);
        let q = p + 4 + vlen;
        proof {
            let sp = 2 + klen as int;
            assert(value@ =~= s.subrange(sp + 4, sp + 4 + vlen as int));
        }
        if blen - q < 2 {
            return Err(KVError::Truncated);
        }
        let mlen = read_u16_at(b, q) as usize;
        proof {
            let sq = 2 + klen as int + 4 + vlen as int;
            assert(s[sq] == b@[q as int] && s[sq + 1] == b@[q as int + 1]);
        }
        if blen - q - 2 < mlen {
            return Err(KVError::Truncated);
        }
        let mb = take_bytes(b, q + 2, mlen);
        proof {
            let sq = 2 + klen as int + 4 + vlen as int;
            assert(mb@ =~= s.subrange(sq + 2, sq + 2 + mlen as int));
        }
        let key = match crate::entry::bytes_to_string(kb) {
            Ok(key) => key,
            Err(e) => {
                return Err(e);
            },
        };
        let mime = match crate::entry::bytes_to_string(mb) {
            Ok(mime) => mime,
            Err(e) => {
                return Err(e);
            },
        };
        Ok((KVEntry { key, value, mime }, q + 2 + mlen))
    }

    /// Deserializes one record found in `log` at `pos`, decompressing its
    /// body first when the flags byte has the compression bit set. Returns
    /// the record and the position just past it.
    pub fn decode(log: &Vec<u8>, pos: usize) -> (r: KVResult<(KVEntry, usize)>)
        requires
            pos <= log@.len(),
        ensures
            ({
                let p = parse_record(log@.skip(pos as int));
                match p {
                    ParsedRec::Truncated => r matches Err(e) && e == KVError::Truncated,
                    ParsedRec::Invalid => r matches Err(e) && e == KVError::InvalidData,
                    ParsedRec::Rec { key, value, mime, used } => {
                        &&& r is Ok
                        &&& r.unwrap().0@ == (KVEntryV { key, value, mime })
                        &&& r.unwrap().1 == pos + used
                        &&& pos < pos + used <= log@.len()
                    },
                }
            }),
    {
        let ghost s = log@.skip(pos as int);
        let blen = log.len();
        if blen - pos < 1 {
            return Err(KVError::Truncated);
        }
        let flags = log[pos];
        proof {
            assert(s[0] == log@[pos as int]);
        }
        if flags & 0x80u8 != 0 {
            if blen - pos < 5 {
                return Err(KVError::Truncated);
            }
            let flen = read_u32_at(log, pos + 1) as usize;
            proof {
                assert(s[1] == log@[pos as int + 1] && s[2] == log@[pos as int + 2] && s[3]
                    == log@[pos as int + 3] && s[4] == log@[pos as int + 4]);
            }
            if blen - pos - 5 < flen {
                return Err(KVError::Truncated);
            }
            let frame = take_bytes(log, pos + 5, flen);
            proof {
                assert(frame@ =~= s.subrange(5, 5 + flen as int));
            }
            let body = match zstd_decompress(&frame) {
                Ok(body) => body,
                Err(e) => {
                    return Err(e);
                },
            };
            match Self::decode_raw_body(&body, 0) {
                Ok((entry, _used)) => {
                    proof {
                        assert(body@.skip(0) =~= body@);
                    }
                    Ok((entry, pos + 5 + flen))
                },
                Err(_) => {
                    proof {
                        assert(body@.skip(0) =~= body@);
                    }
                    Err(KVError::InvalidData)
                },
            }
        } else {
            proof {
                assert(s.skip(1) =~= log@.skip(pos as int + 1));
            }
            Self::decode_raw_body(log, pos + 1)
        }
    }
}

} // verus!
