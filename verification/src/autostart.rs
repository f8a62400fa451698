//! "Start with Windows": one value under the per-user Run key. The registry
//! calls are the program's; what the value holds, and what a read or a write
//! of it comes to, are decided here.

use vstd::prelude::*;

use crate::text::{bytes_eq_ignore_ascii_case, decimal, eq_ignore_ascii_case, push_decimal, push_str, string_from};

verus! {

broadcast use vstd::string::group_string_axioms;

/// `ERROR_SUCCESS`.
pub const ERROR_SUCCESS: u32 = 0;

/// `ERROR_FILE_NOT_FOUND`: what deleting an absent value reports.
pub const ERROR_FILE_NOT_FOUND: u32 = 2;

/// `b` with every `"` at either end removed, as `trim_matches('"')` does.
pub open spec fn strip_quotes(b: Seq<u8>) -> Seq<u8>
    decreases b.len(),
{
    if b.len() > 0 && b[0] == 34u8 {
        strip_quotes(b.drop_first())
    } else if b.len() > 0 && b.last() == 34u8 {
        strip_quotes(b.drop_last())
    } else {
        b
    }
}

fn strip_range(b: &[u8]) -> (r: (usize, usize))
    ensures
        r.0 <= r.1 <= b@.len(),
        strip_quotes(b@) == b@.subrange(r.0 as int, r.1 as int),
{
    let mut lo: usize = 0;
    let mut hi: usize = b.len();
    assert(b@.subrange(0, hi as int) =~= b@);
    while lo < hi && (b[lo] == 34 || b[hi - 1] == 34)
        invariant
            lo <= hi <= b@.len(),
            strip_quotes(b@) == strip_quotes(b@.subrange(lo as int, hi as int)),
        decreases hi - lo,
    {
        let ghost s = b@.subrange(lo as int, hi as int);
        if b[lo] == 34 {
            assert(s.drop_first() =~= b@.subrange(lo + 1, hi as int));
            lo += 1;
        } else {
            assert(s.drop_last() =~= b@.subrange(lo as int, hi - 1));
            hi -= 1;
        }
    }
    (lo, hi)
}

/// Whether a Run entry points at this executable: quotes stripped, compared
/// without regard to ASCII case.
pub open spec fn points_at(value: Seq<char>, exe: Seq<char>) -> bool {
    eq_ignore_ascii_case(
        strip_quotes(vstd::utf8::encode_utf8(value)),
        strip_quotes(vstd::utf8::encode_utf8(exe)),
    )
}

/// Enabled only when the entry points at *this* exe. A leftover entry from a
/// previous location would otherwise make the toggle claim a state the next
/// logon would contradict.
pub fn entry_points_at(value: &str, exe: &str) -> (r: bool)
    ensures
        r == points_at(value@, exe@),
{
    let a = value.as_bytes();
    let b = exe.as_bytes();
    let (a0, a1) = strip_range(a);
    let (b0, b1) = strip_range(b);
    let sa = vstd::slice::slice_subrange(a, a0, a1);
    let sb = vstd::slice::slice_subrange(b, b0, b1);
    bytes_eq_ignore_ascii_case(sa, sb)
}

/// The command the Run value holds: the executable's path, quoted, because a
/// path with spaces would otherwise be split at the first one.
pub fn run_command(exe: &str) -> (c: String)
    ensures
        c@ == "\""@ + exe@ + "\""@,
{
    let mut c = string_from("\"");
    push_str(&mut c, exe);
    push_str(&mut c, "\"");
    c
}

proof fn lemma_encode_concat(x: Seq<char>, y: Seq<char>)
    ensures
        vstd::utf8::encode_utf8(x + y) == vstd::utf8::encode_utf8(x) + vstd::utf8::encode_utf8(y),
    decreases x.len(),
{
    if x.len() == 0 {
        assert(x + y =~= y);
        assert(vstd::utf8::encode_utf8(x) =~= Seq::<u8>::empty());
        assert(Seq::<u8>::empty() + vstd::utf8::encode_utf8(y) =~= vstd::utf8::encode_utf8(y));
    } else {
        assert((x + y).drop_first() =~= x.drop_first() + y);
        assert((x + y)[0] == x[0]);
        lemma_encode_concat(x.drop_first(), y);
        let e = vstd::utf8::encode_scalar(x[0] as u32);
        assert(e + (vstd::utf8::encode_utf8(x.drop_first()) + vstd::utf8::encode_utf8(y)) =~= (e
            + vstd::utf8::encode_utf8(x.drop_first())) + vstd::utf8::encode_utf8(y));
    }
}

/// A closing quote is stripped as the opening ones are.
proof fn lemma_strip_closing_quote(b: Seq<u8>)
    ensures
        strip_quotes(b.push(34u8)) == strip_quotes(b),
    decreases b.len(),
{
    let c = b.push(34u8);
    if b.len() == 0 {
        assert(c.drop_first() =~= b);
    } else if b[0] == 34u8 {
        assert(c.drop_first() =~= b.drop_first().push(34u8));
        lemma_strip_closing_quote(b.drop_first());
    } else {
        assert(c.drop_last() =~= b);
    }
}

/// The value a write puts in the Run key reads back as pointing at the same
/// executable: "Start with Windows" turned on reads as on.
pub proof fn law_the_written_command_reads_back(exe: Seq<char>)
    ensures
        points_at("\""@ + exe + "\""@, exe),
{
    reveal_strlit("\"");
    let q = "\""@;
    assert(q =~= seq!['"']);
    lemma_encode_concat(q + exe, q);
    lemma_encode_concat(q, exe);
    let e = vstd::utf8::encode_utf8(exe);
    assert(vstd::utf8::encode_utf8(q) =~= seq![34u8]) by {
        assert(('"' as u32) == 34);
        assert((34u32 & 0x7Fu32) as u8 == 34u8) by (bit_vector);
        assert(q.drop_first() =~= Seq::<char>::empty());
        assert(vstd::utf8::encode_utf8(q.drop_first()) =~= Seq::<u8>::empty());
    }
    let whole = vstd::utf8::encode_utf8(q + exe + q);
    assert(whole =~= (seq![34u8] + e).push(34u8));
    lemma_strip_closing_quote(seq![34u8] + e);
    assert((seq![34u8] + e).drop_first() =~= e);
    assert(strip_quotes(seq![34u8] + e) == strip_quotes(e));
}

/// The UTF-16 units of a registry string: little-endian pairs, up to the first
/// NUL.
pub open spec fn units_of(b: Seq<u8>) -> Seq<u16>
    decreases b.len(),
{
    if b.len() < 2 {
        Seq::empty()
    } else {
        let u = (b[0] as int + b[1] as int * 256) as u16;
        if u == 0 {
            Seq::empty()
        } else {
            seq![u] + units_of(b.subrange(2, b.len() as int))
        }
    }
}

/// The value's bytes as UTF-16 units, stopping at the first NUL.
pub fn units(bytes: &[u8]) -> (u: Vec<u16>)
    ensures
        u@ == units_of(bytes@),
{
    let mut out: Vec<u16> = Vec::new();
    let mut i: usize = 0;
    let n = bytes.len();
    assert(bytes@.subrange(0, n as int) =~= bytes@);
    while i < n && n - i >= 2
        invariant
            n == bytes@.len(),
            i <= n,
            out@ + units_of(bytes@.subrange(i as int, n as int)) == units_of(bytes@),
        decreases n - i,
    {
        let ghost rest = bytes@.subrange(i as int, n as int);
        let v: u16 = bytes[i] as u16 + bytes[i + 1] as u16 * 256;
        assert(rest[0] == bytes@[i as int] && rest[1] == bytes@[i + 1]);
        if v == 0 {
            assert(out@ + Seq::<u16>::empty() =~= out@);
            return out;
        }
        assert(rest.subrange(2, rest.len() as int) =~= bytes@.subrange(i + 2, n as int));
        out.push(v);
        assert(out@ + units_of(bytes@.subrange(i + 2, n as int)) =~= out@.drop_last() + (seq![v]
            + units_of(bytes@.subrange(i + 2, n as int))));
        i += 2;
    }
    assert(out@ + Seq::<u16>::empty() =~= out@);
    out
}

pub open spec fn write_result(rc: u32) -> Result<(), Seq<char>> {
    if rc == ERROR_SUCCESS {
        Ok(())
    } else {
        Err("registry write failed ("@ + decimal(rc as nat) + ")"@)
    }
}

/// What writing or deleting the Run value came to. Deleting a value that is
/// already absent is the state that was wanted.
pub fn write_outcome(enabled: bool, rc: u32) -> (r: Result<(), String>)
    ensures
        match r {
            Ok(()) => write_result(if !enabled && rc == ERROR_FILE_NOT_FOUND {
                ERROR_SUCCESS
            } else {
                rc
            }) is Ok,
            Err(e) => write_result(if !enabled && rc == ERROR_FILE_NOT_FOUND {
                ERROR_SUCCESS
            } else {
                rc
            }) == Err::<(), Seq<char>>(e@),
        },
{
    let rc = if !enabled && rc == ERROR_FILE_NOT_FOUND {
        ERROR_SUCCESS
    } else {
        rc
    };
    if rc == ERROR_SUCCESS {
        Ok(())
    } else {
        let mut e = string_from("registry write failed (");
        push_decimal(&mut e, rc as u64);
        push_str(&mut e, ")");
        Err(e)
    }
}

} // verus!
