//! Reading the code out of a query string, and undoing `%XX` escapes.
use vstd::prelude::*;
use crate::text::{chars_of, find_first, find_in, lemma_find_first_bounds, push_char, split_on, string_of_range};

verus! {

/// The value of a hexadecimal digit (either case), as `char::to_digit(16)`.
pub open spec fn hex_value(c: char) -> Option<nat> {
    if '0' <= c <= '9' {
        Some((c as nat - '0' as nat) as nat)
    } else if 'a' <= c <= 'f' {
        Some((c as nat - 'a' as nat + 10) as nat)
    } else if 'A' <= c <= 'F' {
        Some((c as nat - 'A' as nat + 10) as nat)
    } else {
        None
    }
}

/// `%XX` with two hex digits becomes the character with code point `0xXX`.
/// A `%` not followed by two hex digits is kept, and the (up to) two
/// characters after it are dropped; everything else is kept as it is.
pub open spec fn url_decode(s: Seq<char>) -> Seq<char>
    decreases s.len(),
{
    if s.len() == 0 {
        seq![]
    } else if s[0] == '%' {
        if s.len() >= 3 {
            match (hex_value(s[1]), hex_value(s[2])) {
                (Some(h), Some(l)) => seq![((h * 16 + l) as char)] + url_decode(s.skip(3)),
                _ => seq!['%'] + url_decode(s.skip(3)),
            }
        } else {
            seq!['%']
        }
    } else {
        seq![s[0]] + url_decode(s.skip(1))
    }
}

fn hex_digit(c: char) -> (r: Option<u32>)
    ensures
        match r {
            Some(v) => hex_value(c) == Some(v as nat) && v < 16,
            None => hex_value(c) is None,
        },
{
    if '0' <= c && c <= '9' {
        Some(c as u32 - '0' as u32)
    } else if 'a' <= c && c <= 'f' {
        Some(c as u32 - 'a' as u32 + 10)
    } else if 'A' <= c && c <= 'F' {
        Some(c as u32 - 'A' as u32 + 10)
    } else {
        None
    }
}

/// Undoes `%XX` escapes as described at `url_decode`.
pub fn urlencoding_decode(s: &str) -> (r: String)
    ensures
        r@ == url_decode(s@),
{
    let v = chars_of(s);
    let n = v.len();
    let mut out = String::new();
    let mut i: usize = 0;
    assert(v@.skip(0) =~= v@);
    assert(out@ + url_decode(v@) =~= url_decode(v@));
    while i < n
        invariant
            n == v@.len(),
            i <= n,
            url_decode(v@) == out@ + url_decode(v@.skip(i as int)),
        decreases n - i,
    {
        let ghost rest = v@.skip(i as int);
        let ghost before = out@;
        let c = v[i];
        assert(rest[0] == c);
        if c == '%' {
            if n - i > 2 {
                assert(rest[1] == v@[i + 1] && rest[2] == v@[i + 2]);
                assert(rest.skip(3) =~= v@.skip(i + 3));
                match (hex_digit(v[i + 1]), hex_digit(v[i + 2])) {
                    (Some(h), Some(l)) => {
                        let x = h * 16 + l;
                        push_char(&mut out, (x as u8) as char);
                    },
                    _ => {
                        push_char(&mut out, '%');
                    },
                }
                i = i + 3;
            } else {
                push_char(&mut out, '%');
                i = n;
                assert(v@.skip(i as int) =~= Seq::<char>::empty());
            }
        } else {
            push_char(&mut out, c);
            assert(rest.skip(1) =~= v@.skip(i + 1));
            i = i + 1;
        }
        assert(before + url_decode(rest) =~= out@ + url_decode(v@.skip(i as int)));
    }
    assert(v@.skip(0) =~= v@);
    assert(out@ + url_decode(v@.skip(n as int)) =~= out@);
    out
}

/// Percent-decoding agrees with `char::to_digit(16)` on every hex digit of
/// either case: `%` followed by two digits from `0-9`, `a-f` or `A-F` becomes
/// the character whose code point they spell (so `%2f` and `%2F` both become
/// `/`), and decoding goes on after them.
pub proof fn law_percent_escape_decodes(h: char, l: char, dh: nat, dl: nat, rest: Seq<char>)
    requires
        ('0' <= h <= '9' && dh == h as nat - '0' as nat) || ('a' <= h <= 'f' && dh == h as nat
            - 'a' as nat + 10) || ('A' <= h <= 'F' && dh == h as nat - 'A' as nat + 10),
        ('0' <= l <= '9' && dl == l as nat - '0' as nat) || ('a' <= l <= 'f' && dl == l as nat
            - 'a' as nat + 10) || ('A' <= l <= 'F' && dl == l as nat - 'A' as nat + 10),
    ensures
        url_decode(seq!['%', h, l] + rest) == seq![((16 * dh + dl) as char)] + url_decode(rest),
{
    let s = seq!['%', h, l] + rest;
    assert(s[0] == '%' && s[1] == h && s[2] == l);
    assert(s.skip(3) =~= rest);
    assert(hex_value(h) == Some(dh));
    assert(hex_value(l) == Some(dl));
    assert(dh * 16 + dl == 16 * dh + dl);
}

/// Everything but an escape passes through: a character other than `%` is
/// kept as it is, and a `%` whose next two characters are not both hex
/// digits is kept while those two characters are dropped.
pub proof fn law_non_escapes_pass_through(c: char, h: char, l: char, rest: Seq<char>)
    ensures
        c != '%' ==> url_decode(seq![c] + rest) == seq![c] + url_decode(rest),
        !(('0' <= h <= '9') || ('a' <= h <= 'f') || ('A' <= h <= 'F')) || !(('0' <= l <= '9') || (
        'a' <= l <= 'f') || ('A' <= l <= 'F')) ==> url_decode(seq!['%', h, l] + rest) == seq!['%']
            + url_decode(rest),
{
    let s = seq![c] + rest;
    assert(s[0] == c);
    assert(s.skip(1) =~= rest);
    let t = seq!['%', h, l] + rest;
    assert(t[0] == '%' && t[1] == h && t[2] == l);
    assert(t.skip(3) =~= rest);
}

pub open spec fn code_key() -> Seq<char> {
    seq!['c', 'o', 'd', 'e']
}

/// The value of one `name=value` pair when its name is `code`; a pair
/// without `=` has no value, and a value ends at a second `=`.
pub open spec fn pair_code_value(pair: Seq<char>) -> Option<Seq<char>> {
    let pieces = split_on(pair, '=');
    if pieces.len() >= 2 && pieces[0] == code_key() {
        Some(pieces[1])
    } else {
        None
    }
}

pub open spec fn first_code_value(pairs: Seq<Seq<char>>) -> Seq<char>
    decreases pairs.len(),
{
    if pairs.len() == 0 {
        seq![]
    } else {
        match pair_code_value(pairs[0]) {
            Some(v) => v,
            None => first_code_value(pairs.drop_first()),
        }
    }
}

/// The (still escaped) value of the first `code` pair of a query string, or
/// nothing when there is none.
pub open spec fn query_code(query: Seq<char>) -> Seq<char> {
    first_code_value(split_on(query, '&'))
}

/// How `split_on` takes off its first piece.
pub proof fn lemma_split_first(s: Seq<char>, c: char)
    ensures
        split_on(s, c).len() >= 1,
        find_first(s, c) is None ==> split_on(s, c) == seq![s],
        find_first(s, c) matches Some(d) ==> 0 <= d < s.len() && split_on(s, c) == seq![s.take(d)]
            + split_on(s.skip(d + 1), c),
{
    lemma_find_first_bounds(s, c);
}

/// The first piece and (if any) the second piece of `split_on`, by index.
proof fn lemma_split_pieces(v: Seq<char>, p: int, e1: int, e2: int, k: int, c: char)
    requires
        0 <= p <= e1 <= k <= v.len(),
        e1 < k ==> find_first(v.subrange(p, k), c) == Some(e1 - p),
        e1 == k ==> find_first(v.subrange(p, k), c) is None,
        e1 < k ==> e1 + 1 <= e2 <= k,
        e1 < k && e2 < k ==> find_first(v.subrange(e1 + 1, k), c) == Some(e2 - e1 - 1),
        e1 < k && e2 == k ==> find_first(v.subrange(e1 + 1, k), c) is None,
    ensures
        split_on(v.subrange(p, k), c)[0] == v.subrange(p, e1),
        split_on(v.subrange(p, k), c).len() >= 2 <==> e1 < k,
        e1 < k ==> split_on(v.subrange(p, k), c)[1] == v.subrange(e1 + 1, e2),
{
    let s = v.subrange(p, k);
    lemma_split_first(s, c);
    if e1 < k {
        assert(s.take(e1 - p) =~= v.subrange(p, e1));
        assert(s.skip(e1 - p + 1) =~= v.subrange(e1 + 1, k));
        let t = v.subrange(e1 + 1, k);
        lemma_split_first(t, c);
        if e2 < k {
            assert(t.take(e2 - e1 - 1) =~= v.subrange(e1 + 1, e2));
        } else {
            assert(t =~= v.subrange(e1 + 1, e2));
        }
    } else {
        assert(s =~= v.subrange(p, e1));
    }
}

/// The raw value of the first `code=` pair of a query string (`&`-separated),
/// or an empty string.
pub fn code_from_query(query: &str) -> (r: String)
    ensures
        r@ == query_code(query@),
{
    let v = chars_of(query);
    let n = v.len();
    let mut p: usize = 0;
    assert(v@.subrange(0, n as int) =~= query@);
    loop
        invariant
            p <= n,
            n == v@.len(),
            v@ == query@,
            query_code(query@) == first_code_value(split_on(v@.subrange(p as int, n as int), '&')),
        decreases n - p,
    {
        let k = find_in(&v, p, n, '&');
        let e1 = find_in(&v, p, k, '=');
        let e2 = if e1 < k {
            find_in(&v, e1 + 1, k, '=')
        } else {
            k
        };
        let ghost rest = v@.subrange(p as int, n as int);
        proof {
            lemma_split_pieces(v@, p as int, e1 as int, e2 as int, k as int, '=');
            lemma_split_first(rest, '&');
            if k < n {
                assert(rest.take(k - p) =~= v@.subrange(p as int, k as int));
                assert(rest.skip(k - p + 1) =~= v@.subrange(k + 1, n as int));
            } else {
                assert(rest =~= v@.subrange(p as int, k as int));
            }
        }
        let ghost pair = v@.subrange(p as int, k as int);
        if e1 < k && e1 - p == 4 && range_is_code(&v, p, e1) {
            return string_of_range(&v, e1 + 1, e2);
        }
        proof {
            if e1 < k && e1 - p == 4 {
                assert(v@.subrange(p as int, e1 as int) != code_key());
            } else if e1 < k {
                assert(v@.subrange(p as int, e1 as int).len() != code_key().len());
            }
            assert(pair_code_value(pair) is None);
        }
        if k == n {
            proof {
                assert(split_on(rest, '&').drop_first() =~= Seq::<Seq<char>>::empty());
                assert(first_code_value(Seq::<Seq<char>>::empty()) == Seq::<char>::empty());
            }
            return String::new();
        }
        proof {
            assert(split_on(rest, '&').drop_first() =~= split_on(v@.subrange(k + 1, n as int), '&'));
        }
        p = k + 1;
    }
}

fn range_is_code(v: &Vec<char>, lo: usize, hi: usize) -> (r: bool)
    requires
        lo <= hi <= v@.len(),
        hi - lo == 4,
    ensures
        r == (v@.subrange(lo as int, hi as int) == code_key()),
{
    let r = v[lo] == 'c' && v[lo + 1] == 'o' && v[lo + 2] == 'd' && v[lo + 3] == 'e';
    proof {
        let s = v@.subrange(lo as int, hi as int);
        assert(s[0] == v@[lo as int] && s[1] == v@[lo + 1] && s[2] == v@[lo + 2] && s[3]
            == v@[lo + 3]);
        if r {
            assert(s =~= code_key());
        }
    }
    r
}

} // verus!
