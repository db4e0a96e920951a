//! The header that announces one file: what it is called, how large it is,
//! when it was created and where it came from; and its binary form, which
//! bincode writes and reads field by field.

use vstd::prelude::*;
use vstd::slice::slice_subrange;
use crate::frame::MAX_HEADER;
use crate::varint::{
    law_text_round_trip, law_varint_len, law_varint_round_trip, parse_text, parse_varint,
    text_bytes, varint,
};

verus! {

/// A point in time: seconds and nanoseconds since the Unix epoch.
#[derive(Clone, Copy, Debug, PartialEq, Eq, Structural)]
pub struct Timestamp {
    pub secs: u64,
    pub nanos: u32,
}

/// What is known of a file before its bytes arrive.
#[derive(Debug)]
pub struct FileHeader {
    pub repo_name: String,
    pub file_name: String,
    pub file_ext: String,
    pub file_size: u64,
    pub file_datetime: Timestamp,
    pub file_location: String,
}

/// A header as a value.
pub struct FileHeaderView {
    pub repo_name: Seq<char>,
    pub file_name: Seq<char>,
    pub file_ext: Seq<char>,
    pub file_size: u64,
    pub file_datetime: Timestamp,
    pub file_location: Seq<char>,
}

impl View for FileHeader {
    type V = FileHeaderView;

    open spec fn view(&self) -> FileHeaderView {
        FileHeaderView {
            repo_name: self.repo_name@,
            file_name: self.file_name@,
            file_ext: self.file_ext@,
            file_size: self.file_size,
            file_datetime: self.file_datetime,
            file_location: self.file_location@,
        }
    }
}

/// Why a header could not be written or read.
#[derive(Clone, Copy, Debug, PartialEq, Eq, Structural)]
pub enum HeaderError {
    /// The binary form is longer than `MAX_HEADER`.
    TooLarge,
    /// The bytes are no header.
    Malformed,
}

/// The binary form of a header: its fields one after the other, with
/// nothing between them.
pub open spec fn header_bytes(h: FileHeaderView) -> Seq<u8> {
    text_bytes(h.repo_name) + text_bytes(h.file_name) + text_bytes(h.file_ext) + varint(
        h.file_size as nat,
    ) + varint(h.file_datetime.secs as nat) + varint(h.file_datetime.nanos as nat) + text_bytes(
        h.file_location,
    )
}

/// The header that starts `bytes`. Bytes after it are not looked at.
pub open spec fn parse_header(bytes: Seq<u8>) -> Option<FileHeaderView> {
    match parse_text(bytes) {
        None => None,
        Some((repo_name, a)) => match parse_text(bytes.skip(a)) {
            None => None,
            Some((file_name, b)) => match parse_text(bytes.skip(a + b)) {
                None => None,
                Some((file_ext, c)) => match parse_varint(bytes.skip(a + b + c), 8) {
                    None => None,
                    Some((size, d)) => match parse_varint(bytes.skip(a + b + c + d), 8) {
                        None => None,
                        Some((secs, e)) => match parse_varint(bytes.skip(a + b + c + d + e), 4) {
                            None => None,
                            Some((nanos, f)) => match parse_text(bytes.skip(a + b + c + d + e + f)) {
                                None => None,
                                Some((file_location, g)) => Some(
                                    FileHeaderView {
                                        repo_name,
                                        file_name,
                                        file_ext,
                                        file_size: size as u64,
                                        file_datetime: Timestamp {
                                            secs: secs as u64,
                                            nanos: nanos as u32,
                                        },
                                        file_location,
                                    },
                                ),
                            },
                        },
                    },
                },
            },
        },
    }
}

/// What reading a header from `bytes` gives.
pub open spec fn decoded(bytes: Seq<u8>) -> Result<FileHeaderView, HeaderError> {
    if bytes.len() > MAX_HEADER {
        Err(HeaderError::TooLarge)
    } else {
        match parse_header(bytes) {
            Some(h) => Ok(h),
            None => Err(HeaderError::Malformed),
        }
    }
}

/// `bincode::encode_to_vec` on a `u64`, with `bincode::config::standard()`:
/// the integer at variable length, as the format's description gives it.
#[verifier::external_body]
fn encode_u64(value: u64) -> (out: Vec<u8>)
    ensures
        out@ == varint(value as nat),
{
    match bincode::encode_to_vec(value, bincode::config::standard()) {
        Ok(bytes) => bytes,
        Err(_) => Vec::new(),
    }
}

/// `bincode::encode_to_vec` on a `u32`, with `bincode::config::standard()`:
/// the integer at variable length, as the format's description gives it.
#[verifier::external_body]
fn encode_u32(value: u32) -> (out: Vec<u8>)
    ensures
        out@ == varint(value as nat),
{
    match bincode::encode_to_vec(value, bincode::config::standard()) {
        Ok(bytes) => bytes,
        Err(_) => Vec::new(),
    }
}

/// `bincode::encode_to_vec` on a `&str`, with `bincode::config::standard()`:
/// the length of the UTF-8 form at variable length, then the UTF-8 form.
#[verifier::external_body]
fn encode_text(text: &str) -> (out: Vec<u8>)
    ensures
        out@ == text_bytes(text@),
{
    match bincode::encode_to_vec(text, bincode::config::standard()) {
        Ok(bytes) => bytes,
        Err(_) => Vec::new(),
    }
}

/// `bincode::decode_from_slice` for a `u64`, with
/// `bincode::config::standard()`: the integer of variable length at the
/// start of `bytes` and the number of bytes read, or nothing where the
/// bytes end early or the marker byte is none of a `u64`.
#[verifier::external_body]
fn decode_u64(bytes: &[u8]) -> (out: Option<(u64, usize)>)
    ensures
        match out {
            Some((value, used)) => parse_varint(bytes@, 8) == Some((value as nat, used as int)),
            None => parse_varint(bytes@, 8) is None,
        },
{
    bincode::decode_from_slice::<u64, _>(bytes, bincode::config::standard()).ok()
}

/// `bincode::decode_from_slice` for a `u32`, with
/// `bincode::config::standard()`: as for a `u64`, but the marker of an
/// eight-byte value is refused.
#[verifier::external_body]
fn decode_u32(bytes: &[u8]) -> (out: Option<(u32, usize)>)
    ensures
        match out {
            Some((value, used)) => parse_varint(bytes@, 4) == Some((value as nat, used as int)),
            None => parse_varint(bytes@, 4) is None,
        },
{
    bincode::decode_from_slice::<u32, _>(bytes, bincode::config::standard()).ok()
}

/// `bincode::decode_from_slice` for a `String`, with the standard
/// configuration limited to 1024 bytes: the length is read as a `u64`,
/// which counts as eight bytes against the limit, then as many bytes are
/// claimed against the limit, read, and checked to be UTF-8. The limit
/// keeps a forged length from being allocated.
#[verifier::external_body]
fn decode_text(bytes: &[u8]) -> (out: Option<(String, usize)>)
    ensures
        match out {
            Some((text, used)) => parse_text(bytes@) == Some((text@, used as int)),
            None => parse_text(bytes@) is None,
        },
{
    bincode::decode_from_slice::<String, _>(
        bytes,
        bincode::config::standard().with_limit::<1024>(),
    ).ok()
}

proof fn lemma_text_used(bytes: Seq<u8>)
    ensures
        parse_text(bytes) matches Some((_, used)) ==> 0 < used <= bytes.len(),
        parse_varint(bytes, 8) matches Some((_, used)) ==> 0 < used <= bytes.len(),
        parse_varint(bytes, 4) matches Some((_, used)) ==> 0 < used <= bytes.len(),
{
}

proof fn lemma_text_at(rest: Seq<u8>, text: Seq<char>, after: Seq<u8>)
    requires
        rest == text_bytes(text) + after,
        8 + vstd::utf8::encode_utf8(text).len() <= crate::varint::TEXT_LIMIT,
    ensures
        parse_text(rest) == Some((text, text_bytes(text).len() as int)),
{
    law_text_round_trip(text, after);
}

proof fn lemma_varint_at(rest: Seq<u8>, value: nat, widest: int, after: Seq<u8>)
    requires
        rest == varint(value) + after,
        value <= u64::MAX,
        widest == 8 || (widest == 4 && value <= u32::MAX),
    ensures
        parse_varint(rest, widest) == Some((value, varint(value).len() as int)),
{
    law_varint_round_trip(value, widest, after);
}

proof fn lemma_splits(
    part_repo: Seq<u8>,
    part_name: Seq<u8>,
    part_ext: Seq<u8>,
    part_size: Seq<u8>,
    part_secs: Seq<u8>,
    part_nanos: Seq<u8>,
    part_place: Seq<u8>,
)
    ensures
        ({
            let all = part_repo + part_name + part_ext + part_size + part_secs + part_nanos + part_place;
            let a = part_repo.len() as int;
            let b = part_name.len() as int;
            let c = part_ext.len() as int;
            let d = part_size.len() as int;
            let e = part_secs.len() as int;
            let f = part_nanos.len() as int;
            &&& all.len() == a + b + c + d + e + f + part_place.len()
            &&& all == part_repo + (part_name + part_ext + part_size + part_secs + part_nanos + part_place)
            &&& all.skip(a) == part_name + (part_ext + part_size + part_secs + part_nanos + part_place)
            &&& all.skip(a + b) == part_ext + (part_size + part_secs + part_nanos + part_place)
            &&& all.skip(a + b + c) == part_size + (part_secs + part_nanos + part_place)
            &&& all.skip(a + b + c + d) == part_secs + (part_nanos + part_place)
            &&& all.skip(a + b + c + d + e) == part_nanos + part_place
            &&& all.skip(a + b + c + d + e + f) == part_place + Seq::<u8>::empty()
        }),
{
    let all = part_repo + part_name + part_ext + part_size + part_secs + part_nanos + part_place;
    let a = part_repo.len() as int;
    let b = part_name.len() as int;
    let c = part_ext.len() as int;
    let d = part_size.len() as int;
    let e = part_secs.len() as int;
    let f = part_nanos.len() as int;
    assert(all =~= part_repo + (part_name + part_ext + part_size + part_secs + part_nanos + part_place));
    assert(all.skip(a) =~= part_name + (part_ext + part_size + part_secs + part_nanos + part_place));
    assert(all.skip(a + b) =~= part_ext + (part_size + part_secs + part_nanos + part_place));
    assert(all.skip(a + b + c) =~= part_size + (part_secs + part_nanos + part_place));
    assert(all.skip(a + b + c + d) =~= part_secs + (part_nanos + part_place));
    assert(all.skip(a + b + c + d + e) =~= part_nanos + part_place);
    assert(all.skip(a + b + c + d + e + f) =~= part_place + Seq::<u8>::empty());
}

proof fn lemma_assemble(
    all: Seq<u8>,
    h: FileHeaderView,
    a: int,
    b: int,
    c: int,
    d: int,
    e: int,
    f: int,
    g: int,
)
    requires
        parse_text(all) == Some((h.repo_name, a)),
        parse_text(all.skip(a)) == Some((h.file_name, b)),
        parse_text(all.skip(a + b)) == Some((h.file_ext, c)),
        parse_varint(all.skip(a + b + c), 8) == Some((h.file_size as nat, d)),
        parse_varint(all.skip(a + b + c + d), 8) == Some((h.file_datetime.secs as nat, e)),
        parse_varint(all.skip(a + b + c + d + e), 4) == Some((h.file_datetime.nanos as nat, f)),
        parse_text(all.skip(a + b + c + d + e + f)) == Some((h.file_location, g)),
    ensures
        parse_header(all) == Some(h),
{
}

proof fn lemma_texts_fit(h: FileHeaderView)
    requires
        header_bytes(h).len() <= MAX_HEADER,
    ensures
        8 + vstd::utf8::encode_utf8(h.repo_name).len() <= crate::varint::TEXT_LIMIT,
        8 + vstd::utf8::encode_utf8(h.file_name).len() <= crate::varint::TEXT_LIMIT,
        8 + vstd::utf8::encode_utf8(h.file_ext).len() <= crate::varint::TEXT_LIMIT,
        8 + vstd::utf8::encode_utf8(h.file_location).len() <= crate::varint::TEXT_LIMIT,
{
    let l1 = vstd::utf8::encode_utf8(h.repo_name).len();
    let l2 = vstd::utf8::encode_utf8(h.file_name).len();
    let l3 = vstd::utf8::encode_utf8(h.file_ext).len();
    let l7 = vstd::utf8::encode_utf8(h.file_location).len();
    law_varint_len(l1);
    law_varint_len(l2);
    law_varint_len(l3);
    law_varint_len(l7);
    law_varint_len(h.file_size as nat);
    law_varint_len(h.file_datetime.secs as nat);
    law_varint_len(h.file_datetime.nanos as nat);
    let v1 = varint(l1).len();
    let v2 = varint(l2).len();
    let v3 = varint(l3).len();
    let v7 = varint(l7).len();
    let n4 = varint(h.file_size as nat).len();
    let n5 = varint(h.file_datetime.secs as nat).len();
    let n6 = varint(h.file_datetime.nanos as nat).len();
    lemma_splits(
        text_bytes(h.repo_name),
        text_bytes(h.file_name),
        text_bytes(h.file_ext),
        varint(h.file_size as nat),
        varint(h.file_datetime.secs as nat),
        varint(h.file_datetime.nanos as nat),
        text_bytes(h.file_location),
    );
    assert(header_bytes(h).len() == v1 + l1 + v2 + l2 + v3 + l3 + n4 + n5 + n6 + v7 + l7);
}

/// A header whose binary form fits within `MAX_HEADER` reads back from
/// that form as itself.
pub proof fn law_header_round_trip(h: FileHeaderView)
    requires
        header_bytes(h).len() <= MAX_HEADER,
    ensures
        decoded(header_bytes(h)) == Ok::<FileHeaderView, HeaderError>(h),
{
    let t1 = text_bytes(h.repo_name);
    let t2 = text_bytes(h.file_name);
    let t3 = text_bytes(h.file_ext);
    let v4 = varint(h.file_size as nat);
    let v5 = varint(h.file_datetime.secs as nat);
    let v6 = varint(h.file_datetime.nanos as nat);
    let t7 = text_bytes(h.file_location);
    let all = header_bytes(h);
    let a = t1.len() as int;
    let b = t2.len() as int;
    let c = t3.len() as int;
    let d = v4.len() as int;
    let e = v5.len() as int;
    let f = v6.len() as int;
    lemma_texts_fit(h);
    lemma_splits(t1, t2, t3, v4, v5, v6, t7);
    lemma_text_at(all, h.repo_name, t2 + t3 + v4 + v5 + v6 + t7);
    lemma_text_at(all.skip(a), h.file_name, t3 + v4 + v5 + v6 + t7);
    lemma_text_at(all.skip(a + b), h.file_ext, v4 + v5 + v6 + t7);
    lemma_varint_at(all.skip(a + b + c), h.file_size as nat, 8, v5 + v6 + t7);
    lemma_varint_at(all.skip(a + b + c + d), h.file_datetime.secs as nat, 8, v6 + t7);
    lemma_varint_at(all.skip(a + b + c + d + e), h.file_datetime.nanos as nat, 4, t7);
    lemma_text_at(all.skip(a + b + c + d + e + f), h.file_location, Seq::<u8>::empty());
    lemma_assemble(all, h, a, b, c, d, e, f, t7.len() as int);
}

impl FileHeader {
    /// The binary form of the header. Fails only where that form is longer
    /// than `MAX_HEADER`.
    pub fn encode(&self) -> (out: Result<Vec<u8>, HeaderError>)
        ensures
            match out {
                Ok(bytes) => bytes@ == header_bytes(self@) && bytes@.len() <= MAX_HEADER,
                Err(e) => e == HeaderError::TooLarge && header_bytes(self@).len() > MAX_HEADER,
            },
    {
        let mut bytes = encode_text(self.repo_name.as_str());
        let mut part = encode_text(self.file_name.as_str());
        bytes.append(&mut part);
        let mut part = encode_text(self.file_ext.as_str());
        bytes.append(&mut part);
        let mut part = encode_u64(self.file_size);
        bytes.append(&mut part);
        let mut part = encode_u64(self.file_datetime.secs);
        bytes.append(&mut part);
        let mut part = encode_u32(self.file_datetime.nanos);
        bytes.append(&mut part);
        let mut part = encode_text(self.file_location.as_str());
        bytes.append(&mut part);
        if bytes.len() > MAX_HEADER {
            Err(HeaderError::TooLarge)
        } else {
            Ok(bytes)
        }
    }

    /// The header that `bytes` hold. Fails where there are more than
    /// `MAX_HEADER` bytes, and where a field cannot be read; bytes after
    /// the last field are not looked at.
    pub fn decode(bytes: &[u8]) -> (out: Result<FileHeader, HeaderError>)
        ensures
            match out {
                Ok(h) => decoded(bytes@) == Ok::<FileHeaderView, HeaderError>(h@),
                Err(e) => decoded(bytes@) == Err::<FileHeaderView, HeaderError>(e),
            },
    {
        if bytes.len() > MAX_HEADER {
            return Err(HeaderError::TooLarge);
        }
        let n = bytes.len();
        proof {
            assert(bytes@.skip(0) =~= bytes@);
        }
        let (repo_name, used) = match decode_text(bytes) {
            Some(r) => r,
            None => {
                return Err(HeaderError::Malformed);
            },
        };
        proof {
            lemma_text_used(bytes@);
        }
        let at = used;
        let rest = slice_subrange(bytes, at, n);
        proof {
            assert(rest@ =~= bytes@.skip(at as int));
            lemma_text_used(rest@);
        }
        let (file_name, used) = match decode_text(rest) {
            Some(r) => r,
            None => {
                return Err(HeaderError::Malformed);
            },
        };
        let at = at + used;
        let rest = slice_subrange(bytes, at, n);
        proof {
            assert(rest@ =~= bytes@.skip(at as int));
            lemma_text_used(rest@);
        }
        let (file_ext, used) = match decode_text(rest) {
            Some(r) => r,
            None => {
                return Err(HeaderError::Malformed);
            },
        };
        let at = at + used;
        let rest = slice_subrange(bytes, at, n);
        proof {
            assert(rest@ =~= bytes@.skip(at as int));
            lemma_text_used(rest@);
        }
        let (file_size, used) = match decode_u64(rest) {
            Some(r) => r,
            None => {
                return Err(HeaderError::Malformed);
            },
        };
        let at = at + used;
        let rest = slice_subrange(bytes, at, n);
        proof {
            assert(rest@ =~= bytes@.skip(at as int));
            lemma_text_used(rest@);
        }
        let (secs, used) = match decode_u64(rest) {
            Some(r) => r,
            None => {
                return Err(HeaderError::Malformed);
            },
        };
        let at = at + used;
        let rest = slice_subrange(bytes, at, n);
        proof {
            assert(rest@ =~= bytes@.skip(at as int));
            lemma_text_used(rest@);
        }
        let (nanos, used) = match decode_u32(rest) {
            Some(r) => r,
            None => {
                return Err(HeaderError::Malformed);
            },
        };
        let at = at + used;
        let rest = slice_subrange(bytes, at, n);
        proof {
            assert(rest@ =~= bytes@.skip(at as int));
            lemma_text_used(rest@);
        }
        let (file_location, _used) = match decode_text(rest) {
            Some(r) => r,
            None => {
                return Err(HeaderError::Malformed);
            },
        };
        Ok(
            FileHeader {
                repo_name,
                file_name,
                file_ext,
                file_size,
                file_datetime: Timestamp { secs, nanos },
                file_location,
            },
        )
    }
}

} // verus!
