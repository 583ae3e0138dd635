//! The `Range` request header (`bytes=...`) of resumable downloads.
use vstd::prelude::*;
use crate::number::{
    all_digits, law_decimal_parses_back, lemma_decimal_digits, parse_u64, parse_unsigned,
    parse_unsigned_range,
};
use crate::text::{
    chars_of, decimal, find_first, find_in, is_ascii_digit, is_white_space, lemma_find_first_bounds,
    lemma_find_first_is, range_equals, split_on, trim, trim_bounds, trim_end, trim_start,
};

verus! {

/// One inclusive byte range `start..=end` of a file.
#[derive(Debug, Clone, Copy, PartialEq, Eq)]
pub struct HttpRange {
    pub start: u64,
    pub end: u64,
}

/// The ranges of one `Range` header, in the order they were written.
#[derive(Debug, Clone)]
pub struct RangeRequest {
    pub ranges: Vec<HttpRange>,
}

/// `a - b`, or zero where that would be negative.
pub open spec fn sat_sub(a: u64, b: u64) -> u64 {
    if a >= b {
        (a - b) as u64
    } else {
        0
    }
}

pub open spec fn min_u64(a: u64, b: u64) -> u64 {
    if a <= b {
        a
    } else {
        b
    }
}

/// One comma-separated part of the header, already trimmed, against a file
/// of `size` bytes:
/// - `-N` with `N > 0` asks for the last `N` bytes (the whole file when it is shorter);
/// - `S-` asks for everything from `S`;
/// - `S-E` asks for `S..=E`, cut at the last byte of the file;
/// and a start after the end, or at or beyond the end of the file, is refused.
pub open spec fn spec_parse_range_part(t: Seq<char>, size: u64) -> Option<HttpRange> {
    if t.len() == 0 {
        None
    } else if t[0] == '-' {
        match parse_u64(t.skip(1)) {
            None => None,
            Some(n) => if n == 0 {
                None
            } else {
                Some(HttpRange { start: sat_sub(size, n), end: sat_sub(size, 1) })
            },
        }
    } else {
        match find_first(t, '-') {
            None => None,
            Some(d) => match parse_u64(t.take(d)) {
                None => None,
                Some(start) => {
                    let end_text = t.skip(d + 1);
                    let end_opt = if end_text.len() == 0 {
                        Some(sat_sub(size, 1))
                    } else {
                        parse_u64(end_text)
                    };
                    match end_opt {
                        None => None,
                        Some(end) => if start > end || start >= size {
                            None
                        } else {
                            Some(HttpRange { start, end: min_u64(end, sat_sub(size, 1)) })
                        },
                    }
                },
            },
        }
    }
}

/// All the parts, each trimmed; `None` as soon as one of them is refused.
pub open spec fn spec_parse_range_parts(parts: Seq<Seq<char>>, size: u64) -> Option<
    Seq<HttpRange>,
>
    decreases parts.len(),
{
    if parts.len() == 0 {
        Some(seq![])
    } else {
        match spec_parse_range_part(trim(parts[0]), size) {
            None => None,
            Some(r) => match spec_parse_range_parts(parts.drop_first(), size) {
                None => None,
                Some(rs) => Some(seq![r] + rs),
            },
        }
    }
}

pub open spec fn bytes_prefix() -> Seq<char> {
    seq!['b', 'y', 't', 'e', 's', '=']
}

/// The ranges that a `Range` header asks for: it must start with `bytes=`,
/// and every comma-separated part after it must be a valid range.
pub open spec fn spec_parse_range_header(s: Seq<char>, size: u64) -> Option<Seq<HttpRange>> {
    if s.len() >= 6 && s.take(6) == bytes_prefix() {
        match spec_parse_range_parts(split_on(s.skip(6), ','), size) {
            Some(rs) => if rs.len() == 0 {
                None
            } else {
                Some(rs)
            },
            None => None,
        }
    } else {
        None
    }
}

proof fn lemma_parts_cons(x: Seq<char>, rest: Seq<Seq<char>>, size: u64)
    ensures
        spec_parse_range_parts(seq![x] + rest, size) == (match spec_parse_range_part(
            trim(x),
            size,
        ) {
            None => None,
            Some(r) => match spec_parse_range_parts(rest, size) {
                None => None,
                Some(rs) => Some(seq![r] + rs),
            },
        }),
{
    assert((seq![x] + rest).drop_first() =~= rest);
    assert((seq![x] + rest)[0] == x);
}

/// How `split_on` takes off the piece that ends at the first comma (or the end).
proof fn lemma_split_step(v: Seq<char>, p: int, k: int, n: int)
    requires
        0 <= p <= k <= n <= v.len(),
        k < n ==> find_first(v.subrange(p, n), ',') == Some(k - p),
        k == n ==> find_first(v.subrange(p, n), ',') is None,
    ensures
        k < n ==> split_on(v.subrange(p, n), ',') == seq![v.subrange(p, k)] + split_on(
            v.subrange(k + 1, n),
            ',',
        ),
        k == n ==> split_on(v.subrange(p, n), ',') == seq![v.subrange(p, k)],
{
    let rest = v.subrange(p, n);
    if k < n {
        assert(rest.take(k - p) =~= v.subrange(p, k));
        assert(rest.skip(k - p + 1) =~= v.subrange(k + 1, n));
    } else {
        assert(rest =~= v.subrange(p, k));
    }
}

fn parse_range_part(v: &Vec<char>, a: usize, b: usize, size: u64) -> (r: Option<HttpRange>)
    requires
        a <= b <= v@.len(),
    ensures
        r == spec_parse_range_part(v@.subrange(a as int, b as int), size),
{
    let ghost t = v@.subrange(a as int, b as int);
    if a == b {
        return None;
    }
    assert(t[0] == v@[a as int]);
    if v[a] == '-' {
        assert(t.skip(1) =~= v@.subrange(a + 1, b as int));
        let n = match parse_unsigned_range(v, a + 1, b, u64::MAX) {
            Some(n) => n,
            None => {
                return None;
            },
        };
        if n == 0 {
            return None;
        }
        return Some(HttpRange { start: size.saturating_sub(n), end: size.saturating_sub(1) });
    }
    let d = find_in(v, a, b, '-');
    if d == b {
        return None;
    }
    assert(t.take(d - a) =~= v@.subrange(a as int, d as int));
    assert(t.skip(d - a + 1) =~= v@.subrange(d + 1, b as int));
    let start = match parse_unsigned_range(v, a, d, u64::MAX) {
        Some(s) => s,
        None => {
            return None;
        },
    };
    let end = if d + 1 == b {
        size.saturating_sub(1)
    } else {
        match parse_unsigned_range(v, d + 1, b, u64::MAX) {
            Some(e) => e,
            None => {
                return None;
            },
        }
    };
    if start > end || start >= size {
        return None;
    }
    let last = size.saturating_sub(1);
    Some(HttpRange { start, end: if end <= last { end } else { last } })
}

/// Parses a `Range` header against a file of `file_size` bytes.
pub fn parse_range_header(range_str: &str, file_size: u64) -> (r: Option<RangeRequest>)
    ensures
        match r {
            Some(req) => spec_parse_range_header(range_str@, file_size) == Some(req.ranges@),
            None => spec_parse_range_header(range_str@, file_size) is None,
        },
{
    let v = chars_of(range_str);
    let n = v.len();
    proof {
        reveal_strlit("bytes=");
    }
    if n < 6 || !range_equals(&v, 0, 6, "bytes=") {
        proof {
            if n >= 6 {
                assert(v@.subrange(0, 6) =~= v@.take(6));
                assert("bytes="@ =~= bytes_prefix());
            }
        }
        return None;
    }
    assert(v@.subrange(0, 6) =~= v@.take(6));
    assert("bytes="@ =~= bytes_prefix());
    assert(v@.skip(6) =~= v@.subrange(6, n as int));
    let mut ranges: Vec<HttpRange> = Vec::new();
    let mut p: usize = 6;
    loop
        invariant_except_break
            6 <= p <= n,
            spec_parse_range_parts(split_on(v@.subrange(6, n as int), ','), file_size) == (
            match spec_parse_range_parts(split_on(v@.subrange(p as int, n as int), ','), file_size) {
                None => None,
                Some(rs) => Some(ranges@ + rs),
            }),
        invariant
            n == v@.len(),
            v@ == range_str@,
            n >= 6,
            v@.take(6) == bytes_prefix(),
            v@.skip(6) == v@.subrange(6, n as int),
        ensures
            spec_parse_range_parts(split_on(v@.subrange(6, n as int), ','), file_size) == Some(
                ranges@,
            ),
            ranges@.len() > 0,
        decreases n - p,
    {
        let k = find_in(&v, p, n, ',');
        let (a, b) = trim_bounds(&v, p, k);
        proof {
            lemma_split_step(v@, p as int, k as int, n as int);
        }
        let r = parse_range_part(&v, a, b, file_size);
        match r {
            None => {
                proof {
                    if k < n {
                        lemma_parts_cons(
                            v@.subrange(p as int, k as int),
                            split_on(v@.subrange(k + 1, n as int), ','),
                            file_size,
                        );
                    } else {
                        lemma_parts_cons(v@.subrange(p as int, k as int), seq![], file_size);
                    }
                }
                return None;
            },
            Some(range) => {
                let ghost before = ranges@;
                ranges.push(range);
                if k == n {
                    proof {
                        lemma_parts_cons(v@.subrange(p as int, k as int), seq![], file_size);
                        assert(ranges@ =~= before + seq![range]);
                    }
                    break ;
                }
                proof {
                    let tail = split_on(v@.subrange(k + 1, n as int), ',');
                    lemma_parts_cons(v@.subrange(p as int, k as int), tail, file_size);
                    match spec_parse_range_parts(tail, file_size) {
                        None => {},
                        Some(rs) => {
                            assert(before + (seq![range] + rs) =~= ranges@ + rs);
                        },
                    }
                }
                p = k + 1;
            },
        }
    }
    Some(RangeRequest { ranges })
}

// ---------------------------------------------------------------------------
// Laws
// ---------------------------------------------------------------------------

proof fn lemma_part_within_file(t: Seq<char>, size: u64)
    requires
        spec_parse_range_part(t, size) is Some,
    ensures
        spec_parse_range_part(t, size).unwrap().start <= spec_parse_range_part(t, size).unwrap().end,
        size > 0 ==> spec_parse_range_part(t, size).unwrap().end < size,
{
}

proof fn lemma_parts_within_file(parts: Seq<Seq<char>>, size: u64)
    requires
        spec_parse_range_parts(parts, size) is Some,
    ensures
        spec_parse_range_parts(parts, size).unwrap().len() == parts.len(),
        forall|i: int|
            0 <= i < parts.len() ==> {
                let r = #[trigger] spec_parse_range_parts(parts, size).unwrap()[i];
                &&& r.start <= r.end
                &&& size > 0 ==> r.end < size
            },
    decreases parts.len(),
{
    if parts.len() > 0 {
        lemma_part_within_file(trim(parts[0]), size);
        lemma_parts_within_file(parts.drop_first(), size);
        let rs = spec_parse_range_parts(parts, size).unwrap();
        let tail = spec_parse_range_parts(parts.drop_first(), size).unwrap();
        assert forall|i: int| 0 < i < parts.len() implies rs[i] == tail[i - 1] by {}
    }
}

/// Every range that a header yields lies inside the file: it does not end
/// before it starts, and (for a file that is not empty) it ends at or before
/// the file's last byte, so `end - start + 1` bytes can always be sent.
/// A header that is accepted yields at least one range.
pub proof fn law_ranges_lie_within_file(s: Seq<char>, size: u64)
    requires
        spec_parse_range_header(s, size) is Some,
    ensures
        spec_parse_range_header(s, size).unwrap().len() > 0,
        forall|i: int|
            0 <= i < spec_parse_range_header(s, size).unwrap().len() ==> {
                let r = #[trigger] spec_parse_range_header(s, size).unwrap()[i];
                &&& r.start <= r.end
                &&& size > 0 ==> r.end < size
            },
{
    lemma_parts_within_file(split_on(s.skip(6), ','), size);
}

proof fn lemma_no_comma_split(x: Seq<char>)
    requires
        forall|i: int| 0 <= i < x.len() ==> x[i] != ',',
    ensures
        split_on(x, ',') == seq![x],
{
    lemma_find_first_is(x, ',', x.len() as int);
}

proof fn lemma_trim_unchanged(x: Seq<char>)
    requires
        x.len() > 0,
        !is_white_space(x[0]),
        !is_white_space(x.last()),
    ensures
        trim(x) == x,
{
    assert(trim_start(x) == x);
    assert(trim_end(x) == x);
}

/// A header with a single part `x` (no comma, nothing to trim) yields just
/// the range that `x` describes.
proof fn lemma_single_part(x: Seq<char>, size: u64)
    requires
        x.len() > 0,
        forall|i: int| 0 <= i < x.len() ==> x[i] != ',',
        !is_white_space(x[0]),
        !is_white_space(x.last()),
    ensures
        spec_parse_range_header(bytes_prefix() + x, size) == (match spec_parse_range_part(
            x,
            size,
        ) {
            Some(r) => Some(seq![r]),
            None => None,
        }),
{
    let s = bytes_prefix() + x;
    assert(s.take(6) =~= bytes_prefix());
    assert(s.skip(6) =~= x);
    lemma_no_comma_split(x);
    lemma_trim_unchanged(x);
    lemma_parts_cons(x, Seq::<Seq<char>>::empty(), size);
    assert(seq![x] + Seq::<Seq<char>>::empty() =~= seq![x]);
    assert(spec_parse_range_parts(Seq::<Seq<char>>::empty(), size) == Some(Seq::<HttpRange>::empty()));
    match spec_parse_range_part(x, size) {
        Some(r) => {
            assert(seq![r] + Seq::<HttpRange>::empty() =~= seq![r]);
        },
        None => {},
    }
}

proof fn lemma_digit_not_special(c: char)
    requires
        is_ascii_digit(c),
    ensures
        c != ',',
        c != '-',
        c != '+',
        !is_white_space(c),
{
}

/// Resuming a download (`bytes=S-`, as `curl -C -` and `wget -c` send it)
/// from any offset inside the file gives everything from that offset on.
pub proof fn law_resume_from_offset(start: u64, size: u64)
    requires
        start < size,
    ensures
        spec_parse_range_header(bytes_prefix() + decimal(start as nat) + seq!['-'], size) == Some(
            seq![HttpRange { start, end: (size - 1) as u64 }],
        ),
{
    let d = decimal(start as nat);
    let x = d + seq!['-'];
    lemma_decimal_digits(start as nat);
    law_decimal_parses_back(start);
    assert forall|i: int| 0 <= i < x.len() implies x[i] != ',' && (i < d.len() ==> x[i] != '-') by {
        if i < d.len() {
            assert(x[i] == d[i]);
            lemma_digit_not_special(d[i]);
        }
    }
    assert(x[0] == d[0]);
    lemma_digit_not_special(d[0]);
    lemma_find_first_is(x, '-', d.len() as int);
    assert(x.take(d.len() as int) =~= d);
    assert(x.skip(d.len() as int + 1) =~= Seq::<char>::empty());
    lemma_single_part(x, size);
    assert(bytes_prefix() + d + seq!['-'] =~= bytes_prefix() + x);
}

/// Asking for the last `n` bytes (`bytes=-n`, `n > 0`) gives the last
/// `n` bytes of the file, or the whole file when it is shorter.
pub proof fn law_last_bytes(n: u64, size: u64)
    requires
        n > 0,
    ensures
        spec_parse_range_header(bytes_prefix() + seq!['-'] + decimal(n as nat), size) == Some(
            seq![HttpRange { start: sat_sub(size, n), end: sat_sub(size, 1) }],
        ),
{
    let d = decimal(n as nat);
    let x = seq!['-'] + d;
    lemma_decimal_digits(n as nat);
    law_decimal_parses_back(n);
    assert forall|i: int| 0 <= i < x.len() implies x[i] != ',' by {
        if i > 0 {
            assert(x[i] == d[i - 1]);
            lemma_digit_not_special(d[i - 1]);
        }
    }
    assert(x.last() == d[d.len() - 1]);
    lemma_digit_not_special(d[d.len() - 1]);
    assert(x.skip(1) =~= d);
    lemma_single_part(x, size);
    assert(bytes_prefix() + seq!['-'] + d =~= bytes_prefix() + x);
}

/// An explicit range `bytes=S-E` with `S <= E` and `S` inside the file gives
/// `S..=E`, cut at the file's last byte.
pub proof fn law_explicit_range(start: u64, end: u64, size: u64)
    requires
        start <= end,
        start < size,
    ensures
        spec_parse_range_header(
            bytes_prefix() + decimal(start as nat) + seq!['-'] + decimal(end as nat),
            size,
        ) == Some(seq![HttpRange { start, end: min_u64(end, (size - 1) as u64) }]),
{
    let ds = decimal(start as nat);
    let de = decimal(end as nat);
    let x = ds + seq!['-'] + de;
    lemma_decimal_digits(start as nat);
    lemma_decimal_digits(end as nat);
    law_decimal_parses_back(start);
    law_decimal_parses_back(end);
    assert forall|i: int| 0 <= i < x.len() implies x[i] != ',' && (i < ds.len() ==> x[i] != '-') by {
        if i < ds.len() {
            assert(x[i] == ds[i]);
            lemma_digit_not_special(ds[i]);
        } else if i > ds.len() {
            assert(x[i] == de[i - ds.len() - 1]);
            lemma_digit_not_special(de[i - ds.len() - 1]);
        }
    }
    assert(x[0] == ds[0]);
    lemma_digit_not_special(ds[0]);
    assert(x.last() == de[de.len() - 1]);
    lemma_digit_not_special(de[de.len() - 1]);
    lemma_find_first_is(x, '-', ds.len() as int);
    assert(x.take(ds.len() as int) =~= ds);
    assert(x.skip(ds.len() as int + 1) =~= de);
    lemma_single_part(x, size);
    assert(bytes_prefix() + ds + seq!['-'] + de =~= bytes_prefix() + x);
}

} // verus!
