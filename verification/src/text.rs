//! Text primitives the rest of the library is stated over: ASCII case folding
//! on bytes, Unicode whitespace trimming on characters, decimal numerals and
//! UTF-16 encoding.

use vstd::prelude::*;

verus! {

broadcast use vstd::string::group_string_axioms;

// ------------------------------------------------------------------ bytes ---

/// `u8::to_ascii_lowercase`: `A`-`Z` become `a`-`z`, every other byte is kept.
pub open spec fn lower(b: u8) -> u8 {
    if 65 <= b <= 90 {
        (b + 32) as u8
    } else {
        b
    }
}

/// `<[u8]>::eq_ignore_ascii_case`: equal lengths, and equal byte for byte once
/// ASCII letters are folded to lower case.
pub open spec fn eq_ignore_ascii_case(a: Seq<u8>, b: Seq<u8>) -> bool {
    &&& a.len() == b.len()
    &&& forall|i: int| 0 <= i < a.len() ==> lower(#[trigger] a[i]) == lower(b[i])
}

pub fn to_lower(b: u8) -> (r: u8)
    ensures
        r == lower(b),
{
    if 65 <= b && b <= 90 {
        b + 32
    } else {
        b
    }
}

/// Whether `hay[at..at + needle.len()]` equals `needle`, ignoring ASCII case.
pub fn window_eq_ignore_ascii_case(hay: &[u8], at: usize, needle: &[u8]) -> (r: bool)
    requires
        at + needle@.len() <= hay@.len(),
    ensures
        r == eq_ignore_ascii_case(hay@.subrange(at as int, at + needle@.len()), needle@),
{
    let n = needle.len();
    let h = hay.len();
    let mut i: usize = 0;
    while i < n
        invariant
            n == needle@.len(),
            h == hay@.len(),
            at + n <= h,
            0 <= i <= n,
            forall|j: int| 0 <= j < i ==> lower(hay@[at + j]) == lower(needle@[j]),
        decreases n - i,
    {
        if to_lower(hay[at + i]) != to_lower(needle[i]) {
            assert(lower(hay@.subrange(at as int, at + n)[i as int]) != lower(needle@[i as int]));
            return false;
        }
        i += 1;
    }
    true
}

/// Whether the whole of `a` equals the whole of `b`, ignoring ASCII case.
pub fn bytes_eq_ignore_ascii_case(a: &[u8], b: &[u8]) -> (r: bool)
    ensures
        r == eq_ignore_ascii_case(a@, b@),
{
    if a.len() != b.len() {
        return false;
    }
    let r = window_eq_ignore_ascii_case(a, 0, b);
    assert(a@.subrange(0, b@.len() as int) =~= a@);
    r
}

// ------------------------------------------------------------- whitespace ---

/// `char::is_whitespace`: the characters with Unicode's `White_Space` property.
pub open spec fn is_white(c: char) -> bool {
    let u = c as u32;
    ||| 9 <= u <= 13
    ||| u == 32
    ||| u == 0x85
    ||| u == 0xA0
    ||| u == 0x1680
    ||| 0x2000 <= u <= 0x200A
    ||| u == 0x2028
    ||| u == 0x2029
    ||| u == 0x202F
    ||| u == 0x205F
    ||| u == 0x3000
}

pub fn is_whitespace(c: char) -> (r: bool)
    ensures
        r == is_white(c),
{
    let u = c as u32;
    (9 <= u && u <= 13) || u == 32 || u == 0x85 || u == 0xA0 || u == 0x1680 || (0x2000 <= u
        && u <= 0x200A) || u == 0x2028 || u == 0x2029 || u == 0x202F || u == 0x205F || u == 0x3000
}

/// `str::trim_start`: the leading whitespace removed.
pub open spec fn trim_start(s: Seq<char>) -> Seq<char>
    decreases s.len(),
{
    if s.len() > 0 && is_white(s[0]) {
        trim_start(s.drop_first())
    } else {
        s
    }
}

/// `str::trim_end`: the trailing whitespace removed.
pub open spec fn trim_end(s: Seq<char>) -> Seq<char>
    decreases s.len(),
{
    if s.len() > 0 && is_white(s.last()) {
        trim_end(s.drop_last())
    } else {
        s
    }
}

/// `str::trim`: whitespace removed from both ends.
pub open spec fn trim(s: Seq<char>) -> Seq<char> {
    trim_end(trim_start(s))
}

/// The index of the first character of `s` at or after `lo` that is not
/// whitespace, or `hi` when `s[lo..hi]` is all whitespace.
pub fn skip_white(s: &Vec<char>, lo: usize, hi: usize) -> (k: usize)
    requires
        lo <= hi <= s@.len(),
    ensures
        lo <= k <= hi,
        trim_start(s@.subrange(lo as int, hi as int)) == s@.subrange(k as int, hi as int),
        k < hi ==> !is_white(s@[k as int]),
{
    let mut k = lo;
    while k < hi && is_whitespace(s[k])
        invariant
            lo <= k <= hi <= s@.len(),
            trim_start(s@.subrange(lo as int, hi as int)) == trim_start(
                s@.subrange(k as int, hi as int),
            ),
        decreases hi - k,
    {
        assert(s@.subrange(k as int, hi as int).drop_first() =~= s@.subrange(
            k + 1,
            hi as int,
        ));
        k += 1;
    }
    k
}

/// The end of `s[lo..hi]` once its trailing whitespace is removed.
pub fn skip_white_back(s: &Vec<char>, lo: usize, hi: usize) -> (k: usize)
    requires
        lo <= hi <= s@.len(),
    ensures
        lo <= k <= hi,
        trim_end(s@.subrange(lo as int, hi as int)) == s@.subrange(lo as int, k as int),
{
    let mut k = hi;
    while k > lo && is_whitespace(s[k - 1])
        invariant
            lo <= k <= hi <= s@.len(),
            trim_end(s@.subrange(lo as int, hi as int)) == trim_end(
                s@.subrange(lo as int, k as int),
            ),
        decreases k - lo,
    {
        assert(s@.subrange(lo as int, k as int).drop_last() =~= s@.subrange(
            lo as int,
            k - 1,
        ));
        k -= 1;
    }
    k
}

/// Trimming from the front and then from the back of a range, as `trim` does.
pub fn trim_range(s: &Vec<char>, lo: usize, hi: usize) -> (r: (usize, usize))
    requires
        lo <= hi <= s@.len(),
    ensures
        lo <= r.0 <= r.1 <= hi,
        trim(s@.subrange(lo as int, hi as int)) == s@.subrange(r.0 as int, r.1 as int),
{
    let a = skip_white(s, lo, hi);
    let b = skip_white_back(s, a, hi);
    (a, b)
}

// ----------------------------------------------------------------- chars ---

/// The characters of `s`, in order.
pub fn chars_of(s: &str) -> (v: Vec<char>)
    ensures
        v@ == s@,
{
    let mut v: Vec<char> = Vec::new();
    for c in it: s.chars()
        invariant
            it.seq() == s@,
            v@ == it.seq().take(it.index() as int),
    {
        v.push(c);
    }
    v
}

/// `String::push`.
#[verifier::external_body]
pub fn push_char(s: &mut String, c: char)
    ensures
        final(s)@ == old(s)@.push(c),
{
    s.push(c);
}

/// The characters `v[lo..hi]` as a new string.
pub fn string_of(v: &Vec<char>, lo: usize, hi: usize) -> (s: String)
    requires
        lo <= hi <= v@.len(),
    ensures
        s@ == v@.subrange(lo as int, hi as int),
{
    let mut s = String::new();
    let mut i = lo;
    while i < hi
        invariant
            lo <= i <= hi <= v@.len(),
            s@ == v@.subrange(lo as int, i as int),
        decreases hi - i,
    {
        push_char(&mut s, v[i]);
        assert(v@.subrange(lo as int, i + 1) =~= v@.subrange(lo as int, i as int).push(v@[i as int]));
        i += 1;
    }
    s
}

/// Appends `t` to `s`.
pub fn push_str(s: &mut String, t: &str)
    ensures
        final(s)@ == old(s)@ + t@,
{
    let v = chars_of(t);
    let mut i: usize = 0;
    while i < v.len()
        invariant
            0 <= i <= v@.len(),
            v@ == t@,
            s@ == old(s)@ + v@.subrange(0, i as int),
        decreases v@.len() - i,
    {
        push_char(s, v[i]);
        assert(v@.subrange(0, i + 1) =~= v@.subrange(0, i as int).push(v@[i as int]));
        assert(old(s)@ + v@.subrange(0, i + 1) =~= (old(s)@ + v@.subrange(0, i as int)).push(
            v@[i as int],
        ));
        i += 1;
    }
    assert(v@.subrange(0, v@.len() as int) =~= v@);
}

/// A new string holding `t`.
pub fn string_from(t: &str) -> (s: String)
    ensures
        s@ == t@,
{
    let mut s = String::new();
    push_str(&mut s, t);
    assert(Seq::<char>::empty() + t@ =~= t@);
    s
}

// -------------------------------------------------------------- numerals ---

/// The ASCII digit for `d`, which is below ten.
pub open spec fn digit(d: int) -> char {
    (48 + d) as char
}

/// `n` in decimal, without leading zeros (a lone `0` for zero).
pub open spec fn decimal(n: nat) -> Seq<char>
    decreases n,
{
    if n < 10 {
        seq![digit(n as int)]
    } else {
        decimal(n / 10).push(digit((n % 10) as int))
    }
}

/// `n` zero-padded to at least `width` digits, as `{n:0width$}` writes it.
pub open spec fn padded(n: nat, width: nat) -> Seq<char> {
    let d = decimal(n);
    if d.len() >= width {
        d
    } else {
        Seq::new((width - d.len()) as nat, |i: int| '0') + d
    }
}

pub proof fn lemma_decimal_len(n: nat)
    ensures
        1 <= decimal(n).len(),
        n < 10 <==> decimal(n).len() == 1,
    decreases n,
{
    if n >= 10 {
        lemma_decimal_len(n / 10);
    }
}

fn digit_char(d: u64) -> (c: char)
    requires
        d < 10,
    ensures
        c == digit(d as int),
{
    let b: u8 = 48 + d as u8;
    b as char
}

/// Appends `n` in decimal to `s`.
pub fn push_decimal(s: &mut String, n: u64)
    ensures
        final(s)@ == old(s)@ + decimal(n as nat),
{
    // The digits, least significant first.
    let mut rev: Vec<char> = Vec::new();
    let mut m = n;
    let ghost mut done: Seq<char> = Seq::empty();
    while m >= 10
        invariant
            decimal(n as nat) == decimal(m as nat) + done,
            rev@ == done.reverse(),
        decreases m,
    {
        let d = m % 10;
        rev.push(digit_char(d));
        proof {
            assert(decimal(m as nat) == decimal((m / 10) as nat).push(digit(d as int)));
            let nd = seq![digit(d as int)] + done;
            assert(decimal(m as nat) + done =~= decimal((m / 10) as nat) + nd);
            done = nd;
            assert(rev@ =~= done.reverse());
        }
        m = m / 10;
    }
    rev.push(digit_char(m));
    proof {
        assert(decimal(m as nat) == seq![digit(m as int)]);
        assert(decimal(n as nat) =~= seq![digit(m as int)] + done);
        done = seq![digit(m as int)] + done;
        assert(rev@ =~= done.reverse());
    }
    assert(decimal(n as nat) == done);
    let mut i = rev.len();
    while i > 0
        invariant
            0 <= i <= rev@.len(),
            rev@ == done.reverse(),
            s@ == old(s)@ + done.subrange(0, (rev@.len() - i) as int),
        decreases i,
    {
        i -= 1;
        push_char(s, rev[i]);
        assert(done.subrange(0, (rev@.len() - i) as int) =~= done.subrange(
            0,
            (rev@.len() - i - 1) as int,
        ).push(done[(rev@.len() - i - 1) as int]));
    }
    assert(done.subrange(0, rev@.len() as int) =~= done);
}

/// Appends `n` to `s`, zero-padded to at least `width` digits.
pub fn push_padded(s: &mut String, n: u64, width: usize)
    ensures
        final(s)@ == old(s)@ + padded(n as nat, width as nat),
{
    let mut digits = String::new();
    push_decimal(&mut digits, n);
    assert(digits@ =~= decimal(n as nat));
    let len = chars_of(digits.as_str()).len();
    let ghost start = s@;
    if len < width {
        let mut k: usize = 0;
        while k < width - len
            invariant
                len < width,
                k <= width - len,
                s@ == start + Seq::new(k as nat, |i: int| '0'),
            decreases width - len - k,
        {
            push_char(s, '0');
            assert(Seq::new((k + 1) as nat, |i: int| '0') =~= Seq::new(k as nat, |i: int| '0').push(
                '0',
            ));
            assert(start + Seq::new((k + 1) as nat, |i: int| '0') =~= (start + Seq::new(
                k as nat,
                |i: int| '0',
            )).push('0'));
            k += 1;
        }
    }
    let ghost mid = s@;
    push_str(s, digits.as_str());
    assert(s@ =~= old(s)@ + padded(n as nat, width as nat));
}

/// `n` in decimal.
pub fn decimal_string(n: u64) -> (s: String)
    ensures
        s@ == decimal(n as nat),
{
    let mut s = String::new();
    push_decimal(&mut s, n);
    assert(s@ =~= decimal(n as nat));
    s
}

// ----------------------------------------------------------------- utf-16 ---

/// `char::encode_utf16`: one unit below U+10000, a surrogate pair above it.
pub open spec fn utf16_of(c: char) -> Seq<u16> {
    let u = c as u32;
    if u < 0x10000 {
        seq![u as u16]
    } else {
        let v = (u - 0x10000) as int;
        seq![(0xD800 + v / 1024) as u16, (0xDC00 + v % 1024) as u16]
    }
}

/// `str::encode_utf16`, collected.
pub open spec fn utf16(s: Seq<char>) -> Seq<u16>
    decreases s.len(),
{
    if s.len() == 0 {
        Seq::empty()
    } else {
        utf16(s.drop_last()) + utf16_of(s.last())
    }
}

/// The UTF-16 units of one character.
pub fn encode_utf16_char(c: char) -> (r: (u16, Option<u16>))
    ensures
        r.1 is None ==> utf16_of(c) == seq![r.0],
        r.1 matches Some(lo) ==> utf16_of(c) == seq![r.0, lo],
{
    let u = c as u32;
    if u < 0x10000 {
        (u as u16, None)
    } else {
        let v = u - 0x10000;
        assert(v <= 0x10FFFF - 0x10000) by {
            assert(c as u32 <= 0x10FFFF);
        }
        ((0xD800 + v / 1024) as u16, Some((0xDC00 + v % 1024) as u16))
    }
}

pub proof fn lemma_utf16_push(s: Seq<char>, c: char)
    ensures
        utf16(s.push(c)) == utf16(s) + utf16_of(c),
{
    assert(s.push(c).drop_last() =~= s);
}

/// The UTF-16 encoding of `s`.
pub fn to_utf16(s: &str) -> (u: Vec<u16>)
    ensures
        u@ == utf16(s@),
{
    let v = chars_of(s);
    let mut out: Vec<u16> = Vec::new();
    let mut i: usize = 0;
    while i < v.len()
        invariant
            0 <= i <= v@.len(),
            v@ == s@,
            out@ == utf16(v@.subrange(0, i as int)),
        decreases v@.len() - i,
    {
        let (hi, lo) = encode_utf16_char(v[i]);
        out.push(hi);
        match lo {
            Some(l) => out.push(l),
            None => {},
        }
        proof {
            lemma_utf16_push(v@.subrange(0, i as int), v@[i as int]);
            assert(v@.subrange(0, i + 1) =~= v@.subrange(0, i as int).push(v@[i as int]));
        }
        assert(out@ =~= utf16(v@.subrange(0, i + 1)));
        i += 1;
    }
    assert(v@.subrange(0, v@.len() as int) =~= v@);
    out
}

} // verus!
