//! How a download is answered: the whole file, one range, or several ranges
//! in a `multipart/byteranges` body; the header values that go with them;
//! and the pieces in which file contents are sent.
use vstd::prelude::*;
use vstd::string::*;
use vstd::utf8::encode_utf8;
use rand::RngCore;
use crate::range::{parse_range_header, spec_parse_range_header, HttpRange, law_ranges_lie_within_file};
use crate::text::{decimal, push_char, push_decimal, push_str};

verus! {

// ---------------------------------------------------------------------------
// Which answer
// ---------------------------------------------------------------------------

/// The kind of answer to a download request.
#[derive(Debug)]
pub enum DownloadPlan {
    /// `200 OK` with the whole file.
    Whole,
    /// `206 Partial Content` with `length` bytes from `start` to `end`.
    Single { start: u64, end: u64, length: u64 },
    /// `206 Partial Content` with each range as one part of a multipart body.
    Multiple { ranges: Vec<HttpRange> },
}

/// The answer for an optional `Range` header and a file of `size` bytes:
/// a header that is missing or refused gets the whole file, a header with
/// one range gets that range, and one with several ranges gets them all.
pub open spec fn spec_download_plan(header: Option<Seq<char>>, size: u64) -> Option<Seq<HttpRange>> {
    match header {
        None => None,
        Some(h) => spec_parse_range_header(h, size),
    }
}

pub open spec fn opt_str(header: Option<&str>) -> Option<Seq<char>> {
    match header {
        Some(h) => Some(h@),
        None => None,
    }
}

/// Decides how to answer a download of a file of `file_size` bytes.
pub fn download_plan(range_header: Option<&str>, file_size: u64) -> (r: DownloadPlan)
    ensures
        match spec_download_plan(opt_str(range_header), file_size) {
            None => r is Whole,
            Some(rs) => if rs.len() == 1 {
                r == DownloadPlan::Single {
                    start: rs[0].start,
                    end: rs[0].end,
                    length: (rs[0].end - rs[0].start + 1) as u64,
                }
            } else {
                r matches DownloadPlan::Multiple { ranges } && ranges@ == rs
            },
        },
        r matches DownloadPlan::Single { start, end, length } ==> start <= end && length == end
            - start + 1 && (file_size > 0 ==> length <= file_size),
{
    let req = match range_header {
        Some(h) => parse_range_header(h, file_size),
        None => None,
    };
    match req {
        None => DownloadPlan::Whole,
        Some(req) => {
            proof {
                law_ranges_lie_within_file(opt_str(range_header).unwrap(), file_size);
            }
            if req.ranges.len() == 1 {
                let r = req.ranges[0];
                assert(r == req.ranges@[0]);
                DownloadPlan::Single { start: r.start, end: r.end, length: r.end - r.start + 1 }
            } else {
                DownloadPlan::Multiple { ranges: req.ranges }
            }
        },
    }
}

// ---------------------------------------------------------------------------
// Header values
// ---------------------------------------------------------------------------

/// `bytes <start>-<end>/<size>`, the value of `Content-Range`.
pub open spec fn spec_content_range(start: u64, end: u64, size: u64) -> Seq<char> {
    "bytes "@ + decimal(start as nat) + seq!['-'] + decimal(end as nat) + seq!['/'] + decimal(
        size as nat,
    )
}

pub fn content_range_value(start: u64, end: u64, size: u64) -> (r: String)
    ensures
        r@ == spec_content_range(start, end, size),
{
    let mut s = String::new();
    push_str(&mut s, "bytes ");
    push_decimal(&mut s, start as u128);
    push_char(&mut s, '-');
    push_decimal(&mut s, end as u128);
    push_char(&mut s, '/');
    push_decimal(&mut s, size as u128);
    assert(s@ =~= spec_content_range(start, end, size));
    s
}

/// `attachment; filename="<name>"`, the value of `Content-Disposition` (the
/// name is inserted as it is).
pub open spec fn spec_content_disposition(name: Seq<char>) -> Seq<char> {
    "attachment; filename=\""@ + name + seq!['"']
}

pub fn content_disposition_value(file_name: &str) -> (r: String)
    ensures
        r@ == spec_content_disposition(file_name@),
        r@.len() == file_name@.len() + 23,
        r@.subrange(22, r@.len() - 1) == file_name@,
        r@.last() == '"',
{
    let mut s = String::new();
    push_str(&mut s, "attachment; filename=\"");
    push_str(&mut s, file_name);
    push_char(&mut s, '"');
    assert(s@ =~= spec_content_disposition(file_name@));
    proof {
        law_disposition_carries_whole_name(file_name@);
    }
    s
}

/// The `Content-Disposition` value carries the whole file name: the 22
/// characters `attachment; filename="`, then every character of the name in
/// order, then a closing quote, so its length is the name's length plus 23.
pub proof fn law_disposition_carries_whole_name(name: Seq<char>)
    ensures
        spec_content_disposition(name).len() == name.len() + 23,
        spec_content_disposition(name).take(22) == seq![
            'a', 't', 't', 'a', 'c', 'h', 'm', 'e', 'n', 't', ';', ' ',
            'f', 'i', 'l', 'e', 'n', 'a', 'm', 'e', '=', '"',
        ],
        spec_content_disposition(name).subrange(22, 22 + name.len() as int) == name,
        spec_content_disposition(name).last() == '"',
{
    reveal_strlit("attachment; filename=\"");
    let v = spec_content_disposition(name);
    assert(v.take(22) =~= seq![
        'a', 't', 't', 'a', 'c', 'h', 'm', 'e', 'n', 't', ';', ' ',
        'f', 'i', 'l', 'e', 'n', 'a', 'm', 'e', '=', '"',
    ]);
    assert(v.subrange(22, 22 + name.len() as int) =~= name);
}

// ---------------------------------------------------------------------------
// Multipart bodies (uuid)
// ---------------------------------------------------------------------------

/// rand's `OsRng::try_fill_bytes` on sixteen bytes: bytes from the
/// system's random source, or `None` where that source fails (the error is
/// handed back, not raised). Which bytes come out is left open.
#[verifier::external_body]
fn system_random_bytes() -> Option<[u8; 16]> {
    let mut bytes = [0u8; 16];
    match rand::rngs::OsRng.try_fill_bytes(&mut bytes) {
        Ok(()) => Some(bytes),
        Err(_) => None,
    }
}

pub open spec fn is_lower_hex(c: char) -> bool {
    ('0' <= c <= '9') || ('a' <= c <= 'f')
}

/// The lower-case hex digit for a value below 16.
pub open spec fn hex_digit_char(n: nat) -> char {
    if n < 10 {
        ((('0' as nat) + n) as char)
    } else {
        ((('a' as nat) + n - 10) as char)
    }
}

/// The bytes of a version-4 UUID made from random bytes: the high nibble of
/// byte 6 becomes 4 (the version) and the two high bits of byte 8 become
/// `10` (the RFC 4122 variant).
pub open spec fn v4_bytes(b: Seq<u8>) -> Seq<u8> {
    b.update(6, ((b[6] & 0x0fu8) | 0x40u8) as u8).update(8, ((b[8] & 0x3fu8) | 0x80u8) as u8)
}

pub open spec fn hyphens_before(i: int) -> int {
    (if i > 8 { 1int } else { 0 }) + (if i > 13 { 1int } else { 0 }) + (if i > 18 { 1int } else { 0 })
        + (if i > 23 { 1int } else { 0 })
}

/// The hyphenated lower-case text of sixteen bytes: two hex digits per byte,
/// high nibble first, with `-` at 8, 13, 18 and 23.
pub open spec fn hyphenated_hex(b: Seq<u8>) -> Seq<char> {
    Seq::new(
        36,
        |i: int|
            if i == 8 || i == 13 || i == 18 || i == 23 {
                '-'
            } else {
                let j = i - hyphens_before(i);
                if j % 2 == 0 {
                    hex_digit_char((b[j / 2] >> 4u8) as nat)
                } else {
                    hex_digit_char((b[j / 2] & 15u8) as nat)
                }
            },
    )
}

/// uuid's `Builder::from_random_bytes(bytes).into_uuid()`, written with
/// `Display` (`to_string`): claimed to be the hyphenated lower-case hex of
/// the bytes with the version and variant bits set, which is what uuid's
/// source does (`with_version`, `with_variant`, then `LowerHex` of the
/// hyphenated form).
#[verifier::external_body]
fn v4_uuid_text(bytes: [u8; 16]) -> (r: String)
    ensures
        r@ == hyphenated_hex(v4_bytes(bytes@)),
{
    uuid::Builder::from_random_bytes(bytes).into_uuid().to_string()
}

/// The hyphenated lower-case form of a UUID: 36 characters, `-` at 8, 13,
/// 18 and 23, lower-case hex digits elsewhere.
pub open spec fn is_hyphenated_uuid(s: Seq<char>) -> bool {
    &&& s.len() == 36
    &&& forall|i: int|
        0 <= i < 36 ==> if i == 8 || i == 13 || i == 18 || i == 23 {
            #[trigger] s[i] == '-'
        } else {
            is_lower_hex(s[i])
        }
}

/// The text of a version-4 UUID: hyphenated, with `4` at 14 and one of
/// `8`, `9`, `a`, `b` at 19.
pub open spec fn is_v4_uuid_text(s: Seq<char>) -> bool {
    &&& is_hyphenated_uuid(s)
    &&& s[14] == '4'
    &&& (s[19] == '8' || s[19] == '9' || s[19] == 'a' || s[19] == 'b')
}

proof fn lemma_nibbles(x: u8)
    by (bit_vector)
    ensures
        x >> 4u8 < 16,
        x & 15u8 < 16,
        ((x & 0x0fu8) | 0x40u8) >> 4u8 == 4,
        8 <= ((x & 0x3fu8) | 0x80u8) >> 4u8 <= 11,
{
}

/// The text of any sixteen random bytes made into a version-4 UUID has the
/// version-4 shape.
pub proof fn law_v4_text_shape(bytes: Seq<u8>)
    requires
        bytes.len() == 16,
    ensures
        is_v4_uuid_text(hyphenated_hex(v4_bytes(bytes))),
{
    let b = v4_bytes(bytes);
    let s = hyphenated_hex(b);
    assert forall|i: int| 0 <= i < 36 implies if i == 8 || i == 13 || i == 18 || i == 23 {
        #[trigger] s[i] == '-'
    } else {
        is_lower_hex(s[i])
    } by {
        if !(i == 8 || i == 13 || i == 18 || i == 23) {
            let j = i - hyphens_before(i);
            assert(0 <= j / 2 < 16);
            lemma_nibbles(b[j / 2]);
        }
    }
    lemma_nibbles(bytes[6]);
    lemma_nibbles(bytes[8]);
    assert(b[6] == ((bytes[6] & 0x0fu8) | 0x40u8) as u8);
    assert(b[8] == ((bytes[8] & 0x3fu8) | 0x80u8) as u8);
}

/// `fastfiles_boundary_` followed by a random version-4 UUID.
pub open spec fn is_boundary(s: Seq<char>) -> bool {
    &&& s.len() == 55
    &&& s.take(19) == "fastfiles_boundary_"@
    &&& is_v4_uuid_text(s.skip(19))
}

/// `fastfiles_boundary_` followed by `text`.
pub fn boundary_from(text: &str) -> (r: String)
    ensures
        r@ == "fastfiles_boundary_"@ + text@,
{
    let mut s = String::new();
    push_str(&mut s, "fastfiles_boundary_");
    push_str(&mut s, text);
    s
}

/// The boundary made of sixteen bytes: `fastfiles_boundary_` and the text
/// of the version-4 UUID of those bytes.
pub fn boundary_for_bytes(bytes: [u8; 16]) -> (r: String)
    ensures
        r@ == "fastfiles_boundary_"@ + hyphenated_hex(v4_bytes(bytes@)),
        is_boundary(r@),
{
    let text = v4_uuid_text(bytes);
    let s = boundary_from(text.as_str());
    proof {
        law_v4_text_shape(bytes@);
        reveal_strlit("fastfiles_boundary_");
        assert(s@.take(19) =~= "fastfiles_boundary_"@);
        assert(s@.skip(19) =~= text@);
    }
    s
}

/// A fresh boundary for a multipart body: the boundary of sixteen bytes
/// drawn from the system's random source; `None` where that source fails.
pub fn multipart_boundary() -> (r: Option<String>)
    ensures
        r matches Some(b) ==> is_boundary(b@),
        r matches Some(b) ==> exists|bytes: Seq<u8>|
            bytes.len() == 16 && #[trigger] hyphenated_hex(v4_bytes(bytes)) == b@.skip(19),
{
    let bytes = match system_random_bytes() {
        Some(b) => b,
        None => {
            return None;
        },
    };
    let s = boundary_for_bytes(bytes);
    proof {
        reveal_strlit("fastfiles_boundary_");
        assert(s@.skip(19) =~= hyphenated_hex(v4_bytes(bytes@)));
    }
    Some(s)
}

/// `multipart/byteranges; boundary=<boundary>`, the value of `Content-Type`.
pub open spec fn spec_multipart_content_type(boundary: Seq<char>) -> Seq<char> {
    "multipart/byteranges; boundary="@ + boundary
}

pub fn multipart_content_type(boundary: &str) -> (r: String)
    ensures
        r@ == spec_multipart_content_type(boundary@),
{
    let mut s = String::new();
    push_str(&mut s, "multipart/byteranges; boundary=");
    push_str(&mut s, boundary);
    s
}

/// The header of one part: boundary line, content type and content range,
/// then an empty line.
pub open spec fn spec_part_header(boundary: Seq<char>, r: HttpRange, size: u64) -> Seq<char> {
    "--"@ + boundary + "\r\nContent-Type: application/octet-stream\r\nContent-Range: "@
        + spec_content_range(r.start, r.end, size) + "\r\n\r\n"@
}

/// The parts for ranges `ranges` with contents `data`, each followed by CRLF.
pub open spec fn spec_parts(
    boundary: Seq<char>,
    ranges: Seq<HttpRange>,
    data: Seq<Seq<u8>>,
    size: u64,
) -> Seq<u8>
    decreases ranges.len(),
{
    if ranges.len() == 0 || data.len() == 0 {
        seq![]
    } else {
        spec_parts(boundary, ranges.drop_last(), data.drop_last(), size) + encode_utf8(
            spec_part_header(boundary, ranges.last(), size),
        ) + data.last() + seq![13u8, 10u8]
    }
}

/// The whole multipart body: the parts, then the closing boundary line.
pub open spec fn spec_multipart_body(
    boundary: Seq<char>,
    ranges: Seq<HttpRange>,
    data: Seq<Seq<u8>>,
    size: u64,
) -> Seq<u8> {
    spec_parts(boundary, ranges, data, size) + encode_utf8("--"@ + boundary + "--\r\n"@)
}

pub open spec fn byte_seqs(v: Seq<Vec<u8>>) -> Seq<Seq<u8>> {
    v.map_values(|b: Vec<u8>| b@)
}

fn push_bytes(out: &mut Vec<u8>, b: &[u8])
    ensures
        final(out)@ == old(out)@ + b@,
{
    let mut i: usize = 0;
    while i < b.len()
        invariant
            i <= b@.len(),
            out@ == old(out)@ + b@.take(i as int),
        decreases b@.len() - i,
    {
        out.push(b[i]);
        i = i + 1;
        assert(out@ =~= old(out)@ + b@.take(i as int));
    }
    assert(b@.take(i as int) =~= b@);
}

fn part_header(boundary: &str, r: HttpRange, size: u64) -> (s: String)
    ensures
        s@ == spec_part_header(boundary@, r, size),
{
    let mut s = String::new();
    push_str(&mut s, "--");
    push_str(&mut s, boundary);
    push_str(&mut s, "\r\nContent-Type: application/octet-stream\r\nContent-Range: ");
    let cr = content_range_value(r.start, r.end, size);
    push_str(&mut s, cr.as_str());
    push_str(&mut s, "\r\n\r\n");
    s
}

/// The body of a multipart answer, from the contents read for each range
/// (`data[i]` for `ranges[i]`).
pub fn multipart_body(boundary: &str, ranges: &Vec<HttpRange>, data: &Vec<Vec<u8>>, file_size: u64) -> (r:
    Vec<u8>)
    requires
        ranges@.len() == data@.len(),
    ensures
        r@ == spec_multipart_body(boundary@, ranges@, byte_seqs(data@), file_size),
{
    let mut out: Vec<u8> = Vec::new();
    let mut i: usize = 0;
    while i < ranges.len()
        invariant
            i <= ranges@.len(),
            ranges@.len() == data@.len(),
            out@ == spec_parts(
                boundary@,
                ranges@.take(i as int),
                byte_seqs(data@).take(i as int),
                file_size,
            ),
        decreases ranges@.len() - i,
    {
        let header = part_header(boundary, ranges[i], file_size);
        push_bytes(&mut out, header.as_str().as_bytes());
        push_bytes(&mut out, data[i].as_slice());
        push_bytes(&mut out, &[13u8, 10u8]);
        proof {
            assert(ranges@.take(i + 1).drop_last() =~= ranges@.take(i as int));
            assert(byte_seqs(data@).take(i + 1).drop_last() =~= byte_seqs(data@).take(i as int));
            assert(ranges@.take(i + 1).last() == ranges@[i as int]);
            assert(byte_seqs(data@).take(i + 1).last() == data@[i as int]@);
        }
        i = i + 1;
    }
    let mut closing = String::new();
    push_str(&mut closing, "--");
    push_str(&mut closing, boundary);
    push_str(&mut closing, "--\r\n");
    push_bytes(&mut out, closing.as_str().as_bytes());
    proof {
        assert(ranges@.take(i as int) =~= ranges@);
        assert(byte_seqs(data@).take(i as int) =~= byte_seqs(data@));
    }
    out
}

// ---------------------------------------------------------------------------
// Sending file contents in pieces
// ---------------------------------------------------------------------------

/// The largest piece of a memory-mapped file sent at once (64 MiB).
pub const CHUNK_SIZE: usize = 67108864;

/// The pieces (start, end) in which `offset..end` is sent: each at most
/// `CHUNK_SIZE` bytes, one after the other.
pub open spec fn chunk_plan(offset: nat, end: nat) -> Seq<(nat, nat)>
    decreases end - offset,
{
    if offset >= end {
        seq![]
    } else {
        let e: nat = if offset + CHUNK_SIZE <= end {
            (offset + CHUNK_SIZE) as nat
        } else {
            end
        };
        seq![(offset, e)] + chunk_plan(e, end)
    }
}

/// The pieces tile the range: the first starts at `offset`, the last ends
/// at `end`, each one starts where the one before ended, and each is
/// non-empty and at most `CHUNK_SIZE` bytes.
pub proof fn law_chunks_tile_range(offset: nat, end: nat)
    requires
        offset < end,
    ensures
        chunk_plan(offset, end).len() > 0,
        chunk_plan(offset, end)[0].0 == offset,
        chunk_plan(offset, end).last().1 == end,
        forall|i: int|
            0 <= i < chunk_plan(offset, end).len() ==> {
                let p = #[trigger] chunk_plan(offset, end)[i];
                &&& p.0 < p.1
                &&& p.1 - p.0 <= CHUNK_SIZE
            },
        forall|i: int|
            0 <= i < chunk_plan(offset, end).len() - 1 ==> (#[trigger] chunk_plan(offset, end)[i]).1
                == chunk_plan(offset, end)[i + 1].0,
    decreases end - offset,
{
    let e: nat = if offset + CHUNK_SIZE <= end {
        (offset + CHUNK_SIZE) as nat
    } else {
        end
    };
    let plan = chunk_plan(offset, end);
    let rest = chunk_plan(e, end);
    assert(plan == seq![(offset, e)] + rest);
    if e < end {
        law_chunks_tile_range(e, end);
        assert forall|i: int| 0 < i < plan.len() implies plan[i] == rest[i - 1] by {}
        assert(plan.last() == rest.last());
        assert forall|i: int| 0 <= i < plan.len() - 1 implies (#[trigger] plan[i]).1 == plan[i
            + 1].0 by {
            if i > 0 {
                assert(plan[i] == rest[i - 1]);
                assert(plan[i + 1] == rest[i]);
            }
        }
        assert forall|i: int| 0 <= i < plan.len() implies {
            let p = #[trigger] plan[i];
            &&& p.0 < p.1
            &&& p.1 - p.0 <= CHUNK_SIZE
        } by {
            if i > 0 {
                assert(plan[i] == rest[i - 1]);
            }
        }
    } else {
        assert(rest =~= Seq::<(nat, nat)>::empty());
        assert(plan =~= seq![(offset, e)]);
    }
}

/// Where the piece that starts at `offset` ends: `CHUNK_SIZE` bytes further,
/// or at `end` when that is nearer (the end of the first piece of
/// `chunk_plan(offset, end)`).
pub fn next_chunk_end(offset: usize, end: usize) -> (r: usize)
    requires
        offset < end,
    ensures
        r as int == if offset + CHUNK_SIZE <= end {
            offset + CHUNK_SIZE
        } else {
            end as int
        },
        r == chunk_plan(offset as nat, end as nat)[0].1,
        offset < r <= end,
        r - offset <= CHUNK_SIZE,
{
    if end - offset <= CHUNK_SIZE {
        end
    } else {
        offset + CHUNK_SIZE
    }
}

/// The size of the read buffer for `length` bytes: `CHUNK_SIZE`, or
/// `length` when that is smaller, but at least one byte.
pub fn read_buffer_len(length: u64) -> (r: usize)
    ensures
        r as int == if length == 0 {
            1
        } else if length < CHUNK_SIZE {
            length as int
        } else {
            CHUNK_SIZE as int
        },
{
    if length == 0 {
        1
    } else if length < CHUNK_SIZE as u64 {
        length as usize
    } else {
        CHUNK_SIZE
    }
}

/// How much to read next: the buffer's length, or what remains when that
/// is less.
pub fn next_read_len(buf_len: usize, remaining: u64) -> (r: usize)
    ensures
        r as int == if (buf_len as int) <= (remaining as int) {
            buf_len as int
        } else {
            remaining as int
        },
        r <= buf_len,
        r <= remaining,
{
    if (buf_len as u64) <= remaining {
        buf_len
    } else {
        remaining as usize
    }
}

/// What remains after a read of `n` bytes: `None` (stop) when the read gave
/// nothing, which means the file ended.
pub open spec fn read_step(remaining: u64, n: nat) -> Option<u64> {
    if n == 0 {
        None
    } else {
        Some((remaining - n) as u64)
    }
}

/// What remains to be read after a read of `n` bytes: `None` (stop) when
/// the read gave nothing, which means the file ended.
pub fn after_read(remaining: u64, n: usize) -> (r: Option<u64>)
    requires
        n <= remaining,
    ensures
        r == read_step(remaining, n as nat),
        n == 0 ==> r is None,
        n > 0 ==> r == Some((remaining - n) as u64),
{
    if n == 0 {
        None
    } else {
        Some(remaining - n as u64)
    }
}

/// The number of bytes of a run of reads.
pub open spec fn total(reads: Seq<nat>) -> nat
    decreases reads.len(),
{
    if reads.len() == 0 {
        0
    } else {
        total(reads.drop_last()) + reads.last()
    }
}

/// A run of reads as the read loop makes them on `length` bytes with a
/// buffer of `buf_len` bytes: each read gives at least one byte and no more
/// than `next_read_len` asked for.
pub open spec fn valid_reads(length: nat, buf_len: nat, reads: Seq<nat>) -> bool {
    forall|i: int|
        0 <= i < reads.len() ==> 0 < #[trigger] reads[i] && reads[i] <= buf_len && reads[i]
            <= length - total(reads.take(i))
}

/// What remains after a run of reads, step by step as `after_read` goes.
pub open spec fn remaining_after(length: u64, reads: Seq<nat>) -> Option<u64>
    decreases reads.len(),
{
    if reads.len() == 0 {
        Some(length)
    } else {
        match remaining_after(length, reads.drop_last()) {
            Some(r) => read_step(r, reads.last()),
            None => None,
        }
    }
}

/// The pieces that the read loop sends add up: after any run of reads the
/// bytes sent and the bytes that remain make up the requested length, so
/// the loop ends with nothing remaining exactly when it has sent all of it.
pub proof fn law_reads_add_up(length: u64, buf_len: nat, reads: Seq<nat>)
    requires
        valid_reads(length as nat, buf_len, reads),
    ensures
        total(reads) <= length,
        remaining_after(length, reads) == Some((length - total(reads)) as u64),
    decreases reads.len(),
{
    if reads.len() > 0 {
        let prefix = reads.drop_last();
        assert(valid_reads(length as nat, buf_len, prefix)) by {
            assert forall|i: int| 0 <= i < prefix.len() implies 0 < #[trigger] prefix[i]
                && prefix[i] <= buf_len && prefix[i] <= length - total(prefix.take(i)) by {
                assert(prefix[i] == reads[i]);
                assert(prefix.take(i) =~= reads.take(i));
            }
        }
        law_reads_add_up(length, buf_len, prefix);
        let last = (reads.len() - 1) as int;
        assert(reads.take(last) =~= prefix);
        assert(reads[last] == reads.last());
    }
}

} // verus!
