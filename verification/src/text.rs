//! Character-level helpers shared by the parsers and the page builders:
//! decimal digits, Unicode white space, trimming and splitting.
use vstd::prelude::*;
use vstd::string::*;
use vstd::utf8::{char_is_scalar, encode_scalar, encode_utf8};

verus! {

/// Appends one character to a string (std's `String::push`).
#[verifier::external_body]
pub(crate) fn push_char(s: &mut String, c: char)
    ensures
        final(s)@ == old(s)@.push(c),
{
    s.push(c);
}

/// Appends a string slice to a string.
pub(crate) fn push_str(s: &mut String, t: &str)
    ensures
        final(s)@ == old(s)@ + t@,
{
    s.append(t);
}

/// The characters of a string slice, collected into a vector.
pub fn chars_of(s: &str) -> (r: Vec<char>)
    ensures
        r@ == s@,
{
    let mut v: Vec<char> = Vec::new();
    for c in it: s.chars()
        invariant
            v@ == it.seq().take(it.index() as int),
            it.seq() == s@,
    {
        v.push(c);
    }
    v
}

/// A string built from a range of characters of a vector.
pub fn string_of_range(v: &Vec<char>, lo: usize, hi: usize) -> (r: String)
    requires
        lo <= hi <= v@.len(),
    ensures
        r@ == v@.subrange(lo as int, hi as int),
{
    let mut s = String::new();
    let mut i = lo;
    while i < hi
        invariant
            lo <= i <= hi <= v@.len(),
            s@ == v@.subrange(lo as int, i as int),
        decreases hi - i,
    {
        push_char(&mut s, v[i]);
        i = i + 1;
        assert(s@ =~= v@.subrange(lo as int, i as int));
    }
    s
}

// ---------------------------------------------------------------------------
// Decimal digits
// ---------------------------------------------------------------------------

/// The ASCII digit for a value below ten.
pub open spec fn digit_char(d: nat) -> char {
    (('0' as nat) + d) as char
}

pub open spec fn is_ascii_digit(c: char) -> bool {
    '0' <= c <= '9'
}

pub open spec fn digit_value(c: char) -> nat {
    (c as nat - '0' as nat) as nat
}

/// The usual decimal notation of a natural number, without leading zeros.
pub open spec fn decimal(n: nat) -> Seq<char>
    decreases n,
{
    if n < 10 {
        seq![digit_char(n)]
    } else {
        decimal(n / 10).push(digit_char(n % 10))
    }
}

/// The last `width` decimal digits of `n`, padded with leading zeros.
pub open spec fn fixed_digits(n: nat, width: nat) -> Seq<char>
    decreases width,
{
    if width == 0 {
        seq![]
    } else {
        fixed_digits(n / 10, (width - 1) as nat).push(digit_char(n % 10))
    }
}

pub fn digit_to_char(d: u8) -> (c: char)
    requires
        d < 10,
    ensures
        c == digit_char(d as nat),
{
    (d + 48) as char
}

/// Appends the decimal notation of `n`.
pub fn push_decimal(s: &mut String, n: u128)
    ensures
        final(s)@ == old(s)@ + decimal(n as nat),
    decreases n,
{
    if n >= 10 {
        push_decimal(s, n / 10);
    }
    let d = (n % 10) as u8;
    push_char(s, digit_to_char(d));
    proof {
        if n < 10 {
            assert(decimal(n as nat) =~= seq![digit_char(n as nat)]);
        }
    }
    assert(final(s)@ =~= old(s)@ + decimal(n as nat));
}

/// Appends the last `width` decimal digits of `n`, zero-padded.
pub fn push_fixed_digits(s: &mut String, n: u128, width: u32)
    ensures
        final(s)@ == old(s)@ + fixed_digits(n as nat, width as nat),
    decreases width,
{
    if width > 0 {
        push_fixed_digits(s, n / 10, width - 1);
        let d = (n % 10) as u8;
        push_char(s, digit_to_char(d));
    }
    assert(final(s)@ =~= old(s)@ + fixed_digits(n as nat, width as nat));
}

// ---------------------------------------------------------------------------
// Unicode white space and trimming (as `str::trim` does it)
// ---------------------------------------------------------------------------

/// The characters with the Unicode `White_Space` property, which is what
/// `char::is_whitespace` and `str::trim` go by.
pub open spec fn is_white_space(c: char) -> bool {
    ||| ('\u{9}' <= c <= '\u{d}')
    ||| c == ' '
    ||| c == '\u{85}'
    ||| c == '\u{a0}'
    ||| c == '\u{1680}'
    ||| ('\u{2000}' <= c <= '\u{200a}')
    ||| c == '\u{2028}'
    ||| c == '\u{2029}'
    ||| c == '\u{202f}'
    ||| c == '\u{205f}'
    ||| c == '\u{3000}'
}

pub fn white_space(c: char) -> (r: bool)
    ensures
        r == is_white_space(c),
{
    ('\u{9}' <= c && c <= '\u{d}') || c == ' ' || c == '\u{85}' || c == '\u{a0}' || c
        == '\u{1680}' || ('\u{2000}' <= c && c <= '\u{200a}') || c == '\u{2028}' || c
        == '\u{2029}' || c == '\u{202f}' || c == '\u{205f}' || c == '\u{3000}'
}

/// `s` without its leading white space.
pub open spec fn trim_start(s: Seq<char>) -> Seq<char>
    decreases s.len(),
{
    if s.len() > 0 && is_white_space(s[0]) {
        trim_start(s.drop_first())
    } else {
        s
    }
}

/// `s` without its trailing white space.
pub open spec fn trim_end(s: Seq<char>) -> Seq<char>
    decreases s.len(),
{
    if s.len() > 0 && is_white_space(s.last()) {
        trim_end(s.drop_last())
    } else {
        s
    }
}

/// `s` without leading and trailing white space.
pub open spec fn trim(s: Seq<char>) -> Seq<char> {
    trim_end(trim_start(s))
}

/// The bounds of the trimmed part of `v[lo..hi]`.
pub fn trim_bounds(v: &Vec<char>, lo: usize, hi: usize) -> (r: (usize, usize))
    requires
        lo <= hi <= v@.len(),
    ensures
        lo <= r.0 <= r.1 <= hi,
        v@.subrange(r.0 as int, r.1 as int) == trim(v@.subrange(lo as int, hi as int)),
{
    let mut a = lo;
    while a < hi && white_space(v[a])
        invariant
            lo <= a <= hi <= v@.len(),
            trim_start(v@.subrange(lo as int, hi as int)) == trim_start(
                v@.subrange(a as int, hi as int),
            ),
        decreases hi - a,
    {
        assert(v@.subrange(a as int, hi as int).drop_first() =~= v@.subrange(
            a + 1,
            hi as int,
        ));
        a = a + 1;
    }
    proof {
        let t = v@.subrange(a as int, hi as int);
        if t.len() > 0 {
            assert(t[0] == v@[a as int]);
        }
        assert(trim_start(t) == t);
    }
    let mut b = hi;
    while b > a && white_space(v[b - 1])
        invariant
            lo <= a <= b <= hi <= v@.len(),
            trim(v@.subrange(lo as int, hi as int)) == trim_end(v@.subrange(a as int, b as int)),
        decreases b - a,
    {
        assert(v@.subrange(a as int, b as int).drop_last() =~= v@.subrange(
            a as int,
            b - 1,
        ));
        b = b - 1;
    }
    proof {
        let t = v@.subrange(a as int, b as int);
        if t.len() > 0 {
            assert(t.last() == v@[b - 1]);
        }
    }
    (a, b)
}

// ---------------------------------------------------------------------------
// Searching and splitting (as `str::find` and `str::split` do it)
// ---------------------------------------------------------------------------

/// The index of the first occurrence of `c` in `s`.
pub open spec fn find_first(s: Seq<char>, c: char) -> Option<int>
    decreases s.len(),
{
    if s.len() == 0 {
        None
    } else if s[0] == c {
        Some(0)
    } else {
        match find_first(s.drop_first(), c) {
            Some(i) => Some(i + 1),
            None => None,
        }
    }
}

/// The pieces of `s` between occurrences of `sep`; one piece when `sep`
/// does not occur, and an empty piece at either end where `s` starts or ends
/// with `sep`.
pub open spec fn split_on(s: Seq<char>, sep: char) -> Seq<Seq<char>>
    decreases s.len(),
{
    match find_first(s, sep) {
        None => seq![s],
        Some(k) => if 0 <= k < s.len() {
            seq![s.take(k)] + split_on(s.skip(k + 1), sep)
        } else {
            seq![s]
        },
    }
}

pub proof fn lemma_find_first_bounds(s: Seq<char>, c: char)
    ensures
        find_first(s, c) matches Some(k) ==> 0 <= k < s.len() && s[k] == c && forall|j: int|
            0 <= j < k ==> s[j] != c,
        find_first(s, c) is None ==> forall|j: int| 0 <= j < s.len() ==> s[j] != c,
    decreases s.len(),
{
    if s.len() > 0 && s[0] != c {
        lemma_find_first_bounds(s.drop_first(), c);
        if let Some(k) = find_first(s.drop_first(), c) {
            assert forall|j: int| 0 <= j < k + 1 implies s[j] != c by {
                if j > 0 {
                    assert(s[j] == s.drop_first()[j - 1]);
                }
            }
        } else {
            assert forall|j: int| 0 <= j < s.len() implies s[j] != c by {
                if j > 0 {
                    assert(s[j] == s.drop_first()[j - 1]);
                }
            }
        }
    }
}

/// Characterises `find_first` by the first matching index.
pub proof fn lemma_find_first_is(s: Seq<char>, c: char, k: int)
    requires
        0 <= k <= s.len(),
        k < s.len() ==> s[k] == c,
        forall|j: int| 0 <= j < k ==> s[j] != c,
    ensures
        k < s.len() ==> find_first(s, c) == Some(k),
        k == s.len() ==> find_first(s, c) is None,
{
    lemma_find_first_bounds(s, c);
}

/// The index of the first `c` in `v[lo..hi]`, or `hi` when there is none.
pub fn find_in(v: &Vec<char>, lo: usize, hi: usize, c: char) -> (r: usize)
    requires
        lo <= hi <= v@.len(),
    ensures
        lo <= r <= hi,
        r < hi ==> find_first(v@.subrange(lo as int, hi as int), c) == Some(r - lo),
        r == hi ==> find_first(v@.subrange(lo as int, hi as int), c) is None,
{
    let mut i = lo;
    while i < hi && v[i] != c
        invariant
            lo <= i <= hi <= v@.len(),
            forall|j: int| lo <= j < i ==> v@[j] != c,
        decreases hi - i,
    {
        i = i + 1;
    }
    proof {
        let s = v@.subrange(lo as int, hi as int);
        assert forall|j: int| 0 <= j < i - lo implies s[j] != c by {
            assert(s[j] == v@[lo + j]);
        }
        lemma_find_first_is(s, c, i - lo);
    }
    i
}

/// Whether `v[lo..hi]` holds exactly the characters of `w`.
pub fn range_equals(v: &Vec<char>, lo: usize, hi: usize, w: &str) -> (r: bool)
    requires
        lo <= hi <= v@.len(),
    ensures
        r == (v@.subrange(lo as int, hi as int) == w@),
{
    let wc = chars_of(w);
    if hi - lo != wc.len() {
        proof {
            if v@.subrange(lo as int, hi as int) == w@ {
                assert(v@.subrange(lo as int, hi as int).len() == w@.len());
            }
        }
        return false;
    }
    let mut i: usize = 0;
    while i < wc.len()
        invariant
            lo <= hi <= v@.len(),
            hi - lo == wc@.len(),
            wc@ == w@,
            0 <= i <= wc@.len(),
            forall|j: int| 0 <= j < i ==> v@[lo + j] == wc@[j],
        decreases wc@.len() - i,
    {
        if v[lo + i] != wc[i] {
            proof {
                let s = v@.subrange(lo as int, hi as int);
                assert(s[i as int] == v@[lo + i]);
            }
            return false;
        }
        i = i + 1;
    }
    assert(v@.subrange(lo as int, hi as int) =~= w@);
    true
}

// ---------------------------------------------------------------------------
// UTF-8 length
// ---------------------------------------------------------------------------

proof fn lemma_encode_utf8_push(a: Seq<char>, c: char)
    ensures
        encode_utf8(a.push(c)) == encode_utf8(a) + encode_scalar(c as u32),
    decreases a.len(),
{
    if a.len() == 0 {
        assert(seq![c].drop_first() =~= Seq::<char>::empty());
        assert(a.push(c) =~= seq![c]);
        assert(encode_utf8(Seq::<char>::empty()) =~= Seq::<u8>::empty());
        assert(encode_scalar(c as u32) + Seq::<u8>::empty() =~= encode_scalar(c as u32));
    } else {
        lemma_encode_utf8_push(a.drop_first(), c);
        assert(a.push(c).drop_first() =~= a.drop_first().push(c));
        assert(a.push(c)[0] == a[0]);
        assert(encode_scalar(a[0] as u32) + (encode_utf8(a.drop_first()) + encode_scalar(c as u32))
            =~= encode_scalar(a[0] as u32) + encode_utf8(a.drop_first()) + encode_scalar(
            c as u32,
        ));
    }
}

/// The number of bytes of the UTF-8 encoding of `c`.
fn utf8_width(c: char) -> (r: usize)
    ensures
        r == encode_scalar(c as u32).len(),
        1 <= r <= 4,
{
    proof {
        char_is_scalar(c);
    }
    let u = c as u32;
    if u <= 0x7f {
        1
    } else if u <= 0x7ff {
        2
    } else if u <= 0xffff {
        3
    } else {
        4
    }
}

/// Whether the UTF-8 encoding of `s` (what `str::len` counts) has exactly
/// `n` bytes.
pub fn utf8_len_is(s: &str, n: usize) -> (r: bool)
    ensures
        r == (encode_utf8(s@).len() == n),
{
    let v = chars_of(s);
    let mut total: usize = 0;
    let mut i: usize = 0;
    assert(v@.take(0) =~= Seq::<char>::empty());
    while i < v.len()
        invariant
            i <= v@.len(),
            v@ == s@,
            total <= n,
            total == encode_utf8(v@.take(i as int)).len(),
        decreases v@.len() - i,
    {
        let w = utf8_width(v[i]);
        proof {
            lemma_encode_utf8_push(v@.take(i as int), v@[i as int]);
            assert(v@.take(i as int).push(v@[i as int]) =~= v@.take(i + 1));
        }
        if w > n - total {
            proof {
                lemma_encode_utf8_prefix_len(v@, i + 1);
                assert(v@.take(v@.len() as int) =~= v@);
            }
            return false;
        }
        total = total + w;
        i = i + 1;
    }
    assert(v@.take(i as int) =~= v@);
    total == n
}

/// The encoding of a prefix is no longer than the encoding of the whole.
proof fn lemma_encode_utf8_prefix_len(s: Seq<char>, k: int)
    requires
        0 <= k <= s.len(),
    ensures
        encode_utf8(s.take(k)).len() <= encode_utf8(s).len(),
    decreases s.len() - k,
{
    if k < s.len() {
        lemma_encode_utf8_prefix_len(s, k + 1);
        lemma_encode_utf8_push(s.take(k), s[k]);
        assert(s.take(k).push(s[k]) =~= s.take(k + 1));
    } else {
        assert(s.take(k) =~= s);
    }
}

} // verus!
