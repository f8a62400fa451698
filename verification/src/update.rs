//! Reading the newest version out of the manifest on the repo's `main`, and
//! comparing it with the running one.
//!
//! The fetch itself is the program's: it runs on a thread of its own, when the
//! button asks, and hands the body it got (or nothing) to `newest_version`.

use vstd::prelude::*;

use crate::text::{
    chars_of, is_white, push_str, skip_white, string_from, string_of, trim, trim_end, trim_range,
    trim_start,
};

verus! {

broadcast use vstd::string::group_string_axioms;

// --------------------------------------------------------------- scanning ---

/// The first index at or after `i` where `s` holds `c`, or `s.len()`.
pub open spec fn find_from(s: Seq<char>, c: char, i: int) -> int
    decreases s.len() - i,
{
    if i < 0 || i >= s.len() {
        s.len() as int
    } else if s[i] == c {
        i
    } else {
        find_from(s, c, i + 1)
    }
}

pub proof fn lemma_find_from(s: Seq<char>, c: char, i: int)
    requires
        0 <= i <= s.len(),
    ensures
        i <= find_from(s, c, i) <= s.len(),
        find_from(s, c, i) < s.len() ==> s[find_from(s, c, i)] == c,
        forall|k: int| i <= k < find_from(s, c, i) ==> s[k] != c,
    decreases s.len() - i,
{
    if i < s.len() && s[i] != c {
        lemma_find_from(s, c, i + 1);
    }
}

/// The first index in `v[lo..hi]` holding `c`, or `hi`.
pub fn find_char(v: &Vec<char>, c: char, lo: usize, hi: usize) -> (k: usize)
    requires
        lo <= hi <= v@.len(),
    ensures
        lo <= k <= hi,
        k < hi ==> v@[k as int] == c,
        forall|j: int| lo <= j < k ==> v@[j] != c,
{
    let mut k = lo;
    while k < hi && v[k] != c
        invariant
            lo <= k <= hi <= v@.len(),
            forall|j: int| lo <= j < k ==> v@[j] != c,
        decreases hi - k,
    {
        k += 1;
    }
    k
}

/// Whether `v[lo..hi]` holds exactly the characters of `t`.
fn range_is(v: &Vec<char>, lo: usize, hi: usize, t: &str) -> (r: bool)
    requires
        lo <= hi <= v@.len(),
    ensures
        r == (v@.subrange(lo as int, hi as int) == t@),
{
    let w = chars_of(t);
    if hi - lo != w.len() {
        return false;
    }
    let mut i: usize = 0;
    while i < w.len()
        invariant
            lo <= hi <= v@.len(),
            hi - lo == w@.len(),
            w@ == t@,
            0 <= i <= w@.len(),
            forall|j: int| 0 <= j < i ==> v@[lo + j] == w@[j],
        decreases w@.len() - i,
    {
        if v[lo + i] != w[i] {
            assert(v@.subrange(lo as int, hi as int)[i as int] != t@[i as int]);
            return false;
        }
        i += 1;
    }
    assert(v@.subrange(lo as int, hi as int) =~= t@);
    true
}

// ------------------------------------------------------------ the manifest ---

/// `key = "value"` on one trimmed line: the key at the very start, then `=`
/// after optional whitespace, then a double-quoted value, which ends at the
/// next double quote.
pub open spec fn quoted_value(line: Seq<char>, key: Seq<char>) -> Option<Seq<char>> {
    if !(key.len() <= line.len() && line.subrange(0, key.len() as int) == key) {
        None
    } else {
        let r1 = trim_start(line.subrange(key.len() as int, line.len() as int));
        if r1.len() == 0 || r1[0] != '=' {
            None
        } else {
            let r2 = trim(r1.subrange(1, r1.len() as int));
            if r2.len() == 0 || r2[0] != '"' {
                None
            } else {
                let r3 = r2.subrange(1, r2.len() as int);
                let j = find_from(r3, '"', 0);
                if j >= r3.len() {
                    None
                } else {
                    Some(r3.subrange(0, j))
                }
            }
        }
    }
}

/// The `version` line of the `[package]` section, reading the manifest a line
/// at a time from `start`; `in_package` says whether the reading is inside
/// that section. A line that starts with `[` opens a section; lines are cut at
/// `\n` and trimmed.
pub open spec fn version_from(s: Seq<char>, start: int, in_package: bool) -> Option<Seq<char>>
    decreases s.len() + 1 - start,
{
    if start < 0 || start > s.len() {
        None
    } else {
        let end = find_from(s, '\n', start);
        let line = trim(s.subrange(start, end));
        proof {
            lemma_find_from(s, '\n', start);
        }
        if line.len() > 0 && line[0] == '[' {
            version_from(s, end + 1, line == "[package]"@)
        } else if in_package && quoted_value(line, "version"@) is Some {
            quoted_value(line, "version"@)
        } else {
            version_from(s, end + 1, in_package)
        }
    }
}

/// The version the `[package]` section of a manifest declares.
pub open spec fn package_version(manifest: Seq<char>) -> Option<Seq<char>> {
    version_from(manifest, 0, false)
}

/// `quoted_value` over `v[lo..hi]`.
fn quoted_in(v: &Vec<char>, lo: usize, hi: usize, key: &str) -> (r: Option<String>)
    requires
        lo <= hi <= v@.len(),
    ensures
        match r {
            Some(x) => quoted_value(v@.subrange(lo as int, hi as int), key@) == Some(x@),
            None => quoted_value(v@.subrange(lo as int, hi as int), key@) is None,
        },
{
    let ghost line = v@.subrange(lo as int, hi as int);
    let k = chars_of(key).len();
    if k > hi - lo || !range_is(v, lo, lo + k, key) {
        proof {
            if k <= hi - lo {
                assert(line.subrange(0, k as int) =~= v@.subrange(lo as int, lo + k));
            }
        }
        return None;
    }
    assert(line.subrange(0, k as int) =~= v@.subrange(lo as int, lo + k));
    assert(line.subrange(k as int, line.len() as int) =~= v@.subrange(lo + k, hi as int));
    let a = skip_white(v, lo + k, hi);
    let ghost r1 = v@.subrange(a as int, hi as int);
    if a == hi || v[a] != '=' {
        return None;
    }
    assert(r1.subrange(1, r1.len() as int) =~= v@.subrange(a + 1, hi as int));
    let (b, c) = trim_range(v, a + 1, hi);
    let ghost r2 = v@.subrange(b as int, c as int);
    if b == c || v[b] != '"' {
        return None;
    }
    let ghost r3 = v@.subrange(b + 1, c as int);
    assert(r2.subrange(1, r2.len() as int) =~= r3);
    let e = find_char(v, '"', b + 1, c);
    proof {
        lemma_find_from(r3, '"', 0);
        let j = find_from(r3, '"', 0);
        if j < e - (b + 1) {
            assert(r3[j] == v@[b + 1 + j]);
        }
        if e < c && j > e - (b + 1) {
            assert(r3[e - (b + 1)] == v@[e as int]);
        }
        assert(j == e - (b + 1));
    }
    if e == c {
        return None;
    }
    let x = string_of(v, b + 1, e);
    assert(r3.subrange(0, e - (b + 1)) =~= v@.subrange(b + 1, e as int));
    Some(x)
}

/// The `version = "x.y.z"` line out of the `[package]` section. Other sections
/// carry versions of their own -- `windows = { version = "0.62" }` -- so the
/// section matters.
pub fn version_in(manifest: &str) -> (r: Option<String>)
    ensures
        match r {
            Some(x) => package_version(manifest@) == Some(x@),
            None => package_version(manifest@) is None,
        },
{
    let v = chars_of(manifest);
    let n = v.len();
    let mut start: usize = 0;
    let mut in_package = false;
    loop
        invariant
            v@ == manifest@,
            n == v@.len(),
            start <= n,
            version_from(v@, 0, false) == version_from(v@, start as int, in_package),
        decreases n - start,
    {
        let end = find_char(&v, '\n', start, n);
        proof {
            lemma_find_from(v@, '\n', start as int);
            let f = find_from(v@, '\n', start as int);
            if f < end {
                assert(v@[f] == '\n');
            }
            if end < n && f > end {
                assert(v@[end as int] == '\n');
            }
            assert(f == end);
        }
        let (a, b) = trim_range(&v, start, end);
        if a < b && v[a] == '[' {
            let ghost line = v@.subrange(a as int, b as int);
            assert(line[0] == v@[a as int]);
            in_package = range_is(&v, a, b, "[package]");
        } else if in_package {
            match quoted_in(&v, a, b, "version") {
                Some(x) => return Some(x),
                None => {},
            }
        }
        if end == n {
            assert(version_from(v@, n + 1, true) is None);
            assert(version_from(v@, n + 1, false) is None);
            return None;
        }
        start = end + 1;
    }
}

// ------------------------------------------------------------- comparing ---

pub open spec fn is_digit(c: char) -> bool {
    '0' <= c <= '9'
}

/// The value of a run of ASCII digits.
pub open spec fn digits_value(t: Seq<char>) -> nat
    decreases t.len(),
{
    if t.len() == 0 {
        0
    } else {
        digits_value(t.drop_last()) * 10 + ((t.last() as u32) - 48) as nat
    }
}

/// `t` without one leading `+`.
pub open spec fn unsigned(t: Seq<char>) -> Seq<char> {
    if t.len() > 0 && t[0] == '+' {
        t.subrange(1, t.len() as int)
    } else {
        t
    }
}

pub open spec fn all_digits(d: Seq<char>) -> bool {
    forall|i: int| 0 <= i < d.len() ==> is_digit(#[trigger] d[i])
}

/// What `str::parse::<u64>` reads out of `t`: an optional `+`, then one or
/// more ASCII digits whose value fits; zero when `t` is not that, which is
/// how an unreadable component counts.
pub open spec fn component_value(t: Seq<char>) -> u64 {
    let d = unsigned(t);
    if d.len() > 0 && all_digits(d) && digits_value(d) <= u64::MAX {
        digits_value(d) as u64
    } else {
        0
    }
}

/// The `.`-separated components of a version from `start` on, each trimmed and
/// read as a number.
pub open spec fn components_from(s: Seq<char>, start: int) -> Seq<u64>
    decreases s.len() + 1 - start,
{
    if start < 0 || start > s.len() {
        Seq::empty()
    } else {
        let end = find_from(s, '.', start);
        proof {
            lemma_find_from(s, '.', start);
        }
        seq![component_value(trim(s.subrange(start, end)))] + components_from(s, end + 1)
    }
}

pub open spec fn components(v: Seq<char>) -> Seq<u64> {
    components_from(v, 0)
}

/// Component `i`, where a missing component counts as zero.
pub open spec fn part(a: Seq<u64>, i: int) -> u64 {
    if 0 <= i < a.len() {
        a[i]
    } else {
        0
    }
}

/// Whether `a` is newer than `b`, deciding at the first component from `i`
/// where they differ.
pub open spec fn newer_from(a: Seq<u64>, b: Seq<u64>, i: int) -> bool
    decreases (if a.len() > b.len() {
        a.len()
    } else {
        b.len()
    }) - i,
{
    if i < 0 || (i >= a.len() && i >= b.len()) {
        false
    } else if part(a, i) != part(b, i) {
        part(a, i) > part(b, i)
    } else {
        newer_from(a, b, i + 1)
    }
}

/// Numeric, component by component: `1.10.0` is newer than `1.9.0`.
pub open spec fn newer(candidate: Seq<char>, running: Seq<char>) -> bool {
    newer_from(components(candidate), components(running), 0)
}

/// `component_value` of `v[lo..hi]`.
fn read_component(v: &Vec<char>, lo: usize, hi: usize) -> (n: u64)
    requires
        lo <= hi <= v@.len(),
    ensures
        n == component_value(v@.subrange(lo as int, hi as int)),
{
    let ghost t = v@.subrange(lo as int, hi as int);
    let mut s = lo;
    if s < hi && v[s] == '+' {
        s += 1;
    }
    let ghost d = v@.subrange(s as int, hi as int);
    assert(d =~= if t.len() > 0 && t[0] == '+' {
        t.subrange(1, t.len() as int)
    } else {
        t
    });
    if s == hi {
        return 0;
    }
    let mut acc: u64 = 0;
    let mut over = false;
    let mut k = s;
    while k < hi
        invariant
            lo <= s < hi <= v@.len(),
            s <= k <= hi,
            d == v@.subrange(s as int, hi as int),
            t == v@.subrange(lo as int, hi as int),
            d == if t.len() > 0 && t[0] == '+' {
                t.subrange(1, t.len() as int)
            } else {
                t
            },
            forall|i: int| s <= i < k ==> is_digit(#[trigger] v@[i]),
            !over ==> acc == digits_value(v@.subrange(s as int, k as int)),
            over ==> digits_value(v@.subrange(s as int, k as int)) > u64::MAX,
        decreases hi - k,
    {
        let c = v[k];
        if !('0' <= c && c <= '9') {
            assert(!is_digit(d[k - s]));
            assert(d == unsigned(t));
            assert(!all_digits(d));
            return 0;
        }
        let ghost p = v@.subrange(s as int, k + 1);
        assert(p.drop_last() =~= v@.subrange(s as int, k as int));
        let digit = (c as u32 - 48) as u64;
        if !over {
            if acc > (u64::MAX - digit) / 10 {
                over = true;
            } else {
                acc = acc * 10 + digit;
            }
        }
        k += 1;
    }
    assert(v@.subrange(s as int, hi as int) =~= d);
    if over {
        0
    } else {
        acc
    }
}

/// The components of `s`.
fn read_components(s: &str) -> (c: Vec<u64>)
    ensures
        c@ == components(s@),
{
    let v = chars_of(s);
    let n = v.len();
    let mut out: Vec<u64> = Vec::new();
    let mut start: usize = 0;
    loop
        invariant
            v@ == s@,
            n == v@.len(),
            start <= n,
            out@ + components_from(v@, start as int) == components(v@),
        decreases n - start,
    {
        let end = find_char(&v, '.', start, n);
        proof {
            lemma_find_from(v@, '.', start as int);
            let f = find_from(v@, '.', start as int);
            if f < end {
                assert(v@[f] == '.');
            }
            if end < n && f > end {
                assert(v@[end as int] == '.');
            }
        }
        let (a, b) = trim_range(&v, start, end);
        let x = read_component(&v, a, b);
        out.push(x);
        if end == n {
            assert(components_from(v@, (end + 1) as int) == Seq::<u64>::empty());
            assert(out@ =~= out@ + Seq::<u64>::empty());
            return out;
        }
        proof {
            assert(out@.drop_last() + components_from(v@, start as int) == components(v@));
            assert(out@ + components_from(v@, end + 1) =~= out@.drop_last() + (seq![x]
                + components_from(v@, end + 1)));
        }
        start = end + 1;
    }
}

/// Numeric, component by component: `1.10.0` is newer than `1.9.0`, which
/// comparing the strings gets wrong. Anything unreadable counts as zero, so a
/// strange version in either place compares low rather than claiming to be
/// new.
pub fn is_newer(candidate: &str, running: &str) -> (r: bool)
    ensures
        r == newer(candidate@, running@),
{
    let a = read_components(candidate);
    let b = read_components(running);
    let len = if a.len() > b.len() {
        a.len()
    } else {
        b.len()
    };
    let mut i: usize = 0;
    while i < len
        invariant
            len == if a@.len() > b@.len() {
                a@.len()
            } else {
                b@.len()
            },
            i <= len,
            a@ == components(candidate@),
            b@ == components(running@),
            newer_from(a@, b@, 0) == newer_from(a@, b@, i as int),
        decreases len - i,
    {
        let x = if i < a.len() {
            a[i]
        } else {
            0
        };
        let y = if i < b.len() {
            b[i]
        } else {
            0
        };
        assert(x == part(a@, i as int) && y == part(b@, i as int));
        if x != y {
            return x > y;
        }
        i += 1;
    }
    false
}

// --------------------------------------------------------------- outcome ---

/// The version this build is.
pub open spec fn running_version() -> Seq<char> {
    "1.1.0"@
}

/// The version this build is.
pub fn version() -> (v: &'static str)
    ensures
        v@ == running_version(),
{
    "1.1.0"
}

/// What the last check found.
#[derive(Debug, Clone, PartialEq, Eq)]
pub enum Outcome {
    UpToDate,
    Newer(String),
    /// github did not answer, or answered with something unreadable.
    Unreachable,
}

pub enum OutcomeView {
    UpToDate,
    Newer(Seq<char>),
    Unreachable,
}

impl View for Outcome {
    type V = OutcomeView;

    open spec fn view(&self) -> OutcomeView {
        match self {
            Outcome::UpToDate => OutcomeView::UpToDate,
            Outcome::Newer(v) => OutcomeView::Newer(v@),
            Outcome::Unreachable => OutcomeView::Unreachable,
        }
    }
}

/// The newest version on `main`, out of the manifest the fetch brought back;
/// nothing when there was no answer.
pub fn newest_version(body: Option<String>) -> (r: Option<String>)
    ensures
        match body {
            None => r is None,
            Some(b) => match r {
                Some(x) => package_version(b@) == Some(x@),
                None => package_version(b@) is None,
            },
        },
{
    match body {
        Some(b) => version_in(b.as_str()),
        None => None,
    }
}

/// What a check found, given the newest version it read (if any).
pub fn outcome_of(newest: Option<String>) -> (o: Outcome)
    ensures
        match newest {
            None => o@ == OutcomeView::Unreachable,
            Some(n) => if newer(n@, running_version()) {
                o@ == OutcomeView::Newer(n@)
            } else {
                o@ == OutcomeView::UpToDate
            },
        },
{
    match newest {
        Some(n) => {
            if is_newer(n.as_str(), version()) {
                Outcome::Newer(n)
            } else {
                Outcome::UpToDate
            }
        },
        None => Outcome::Unreachable,
    }
}

pub open spec fn said_text(o: OutcomeView) -> Seq<char> {
    match o {
        OutcomeView::UpToDate => running_version() + " is the newest"@,
        OutcomeView::Newer(v) => v + " is available"@,
        OutcomeView::Unreachable => "no answer from github"@,
    }
}

/// What the log says about a check, so the one network event this app has is
/// written down where the user can read it back.
pub fn said(outcome: &Outcome) -> (s: String)
    ensures
        s@ == said_text(outcome@),
{
    match outcome {
        Outcome::UpToDate => {
            let mut s = string_from(version());
            push_str(&mut s, " is the newest");
            s
        },
        Outcome::Newer(v) => {
            let mut s = string_from(v.as_str());
            push_str(&mut s, " is available");
            s
        },
        Outcome::Unreachable => string_from("no answer from github"),
    }
}

/// Where the check stands.
#[derive(Debug, Clone, PartialEq, Eq)]
pub enum State {
    Idle,
    Checking,
    Done(Outcome),
}

/// Starts a check unless one is already in the air; says whether it did.
pub fn begin_check(state: &mut State) -> (started: bool)
    ensures
        started == !(*old(state) is Checking),
        *final(state) is Checking,
{
    match state {
        State::Checking => false,
        _ => {
            *state = State::Checking;
            true
        },
    }
}

// ------------------------------------------------------------------ laws ---

proof fn lemma_newer_in_range(a: Seq<u64>, b: Seq<u64>, i: int)
    requires
        newer_from(a, b, i),
    ensures
        0 <= i,
        i < a.len() || i < b.len(),
{
}

proof fn lemma_never_newer_than_itself(a: Seq<u64>, i: int)
    ensures
        !newer_from(a, a, i),
    decreases a.len() - i,
{
    if 0 <= i < a.len() {
        lemma_never_newer_than_itself(a, i + 1);
    }
}

proof fn lemma_newer_asymmetric(a: Seq<u64>, b: Seq<u64>, i: int)
    requires
        newer_from(a, b, i),
    ensures
        !newer_from(b, a, i),
    decreases (if a.len() > b.len() {
        a.len()
    } else {
        b.len()
    }) - i,
{
    if part(a, i) == part(b, i) {
        lemma_newer_asymmetric(a, b, i + 1);
    }
}

proof fn lemma_newer_transitive(a: Seq<u64>, b: Seq<u64>, c: Seq<u64>, i: int)
    requires
        newer_from(a, b, i),
        newer_from(b, c, i),
    ensures
        newer_from(a, c, i),
    decreases (if a.len() > b.len() {
        a.len()
    } else {
        b.len()
    }) - i,
{
    if part(a, i) == part(b, i) && part(b, i) == part(c, i) {
        lemma_newer_transitive(a, b, c, i + 1);
        lemma_newer_in_range(a, c, i + 1);
    }
}

/// "Newer" is a strict order on versions: no version is newer than itself, a
/// version newer than another is not also older than it, and a version newer
/// than a newer one is newer still.
pub proof fn law_newer_is_a_strict_order(a: Seq<char>, b: Seq<char>, c: Seq<char>)
    ensures
        !newer(a, a),
        newer(a, b) ==> !newer(b, a),
        newer(a, b) && newer(b, c) ==> newer(a, c),
{
    lemma_never_newer_than_itself(components(a), 0);
    if newer(a, b) {
        lemma_newer_asymmetric(components(a), components(b), 0);
        if newer(b, c) {
            lemma_newer_transitive(components(a), components(b), components(c), 0);
        }
    }
}

proof fn lemma_find_past_dot_zero(a: Seq<char>, k: int)
    requires
        0 <= k <= a.len(),
    ensures
        find_from(a + seq!['.', '0'], '.', k) == find_from(a, '.', k),
    decreases a.len() - k,
{
    let s = a + seq!['.', '0'];
    if k < a.len() && a[k] != '.' {
        lemma_find_past_dot_zero(a, k + 1);
    }
}

/// A `.0` on the end adds one zero component and leaves the others alone.
proof fn lemma_components_dot_zero(a: Seq<char>, k: int)
    requires
        0 <= k <= a.len() + 1,
    ensures
        components_from(a + seq!['.', '0'], k) == components_from(a, k).push(0),
    decreases a.len() + 1 - k,
{
    let s = a + seq!['.', '0'];
    if k <= a.len() {
        lemma_find_past_dot_zero(a, k);
        lemma_find_from(a, '.', k);
        let end = find_from(a, '.', k);
        assert(s.subrange(k, end) =~= a.subrange(k, end));
        lemma_components_dot_zero(a, end + 1);
        assert(components_from(s, k) =~= components_from(a, k).push(0));
    } else {
        let z = s.subrange(k, s.len() as int);
        assert(z =~= seq!['0']);
        assert(trim_start(z) == z) by {
            assert(!is_white('0'));
        }
        assert(trim_end(z) == z);
        assert(trim(z) == z);
        assert(unsigned(z) == z);
        assert(digits_value(z) == 0) by {
            assert(z.drop_last() =~= Seq::<char>::empty());
            assert(z.last() == '0');
            assert(('0' as u32) == 48);
            reveal_with_fuel(digits_value, 2);
        }
        assert(component_value(trim(z)) == 0);
        lemma_find_from(s, '.', k);
        assert(find_from(s, '.', k) == s.len()) by {
            reveal_with_fuel(find_from, 3);
        }
        assert(components_from(s, k + 2) =~= Seq::<u64>::empty());
        assert(components_from(s, k) =~= seq![0u64]);
        assert(components_from(a, k) =~= Seq::<u64>::empty());
    }
}

/// Comparing from `i` on depends only on the components' values, with a
/// missing component reading as zero.
proof fn lemma_newer_by_parts(a: Seq<u64>, c: Seq<u64>, b: Seq<u64>, d: Seq<u64>, i: int)
    requires
        forall|j: int| part(a, j) == part(c, j),
        forall|j: int| part(b, j) == part(d, j),
    ensures
        newer_from(a, b, i) == newer_from(c, d, i),
    decreases a.len() + b.len() + c.len() + d.len() - i,
{
    if i < 0 {
    } else {
        assert(part(a, i) == part(c, i));
        assert(part(b, i) == part(d, i));
        if i >= a.len() && i >= b.len() && i >= c.len() && i >= d.len() {
        } else if part(a, i) != part(b, i) {
        } else {
            lemma_newer_by_parts(a, c, b, d, i + 1);
        }
    }
}

/// A trailing `.0` on either version changes nothing: `1.2.0` is `1.2`.
pub proof fn law_trailing_zero_changes_nothing(a: Seq<char>, b: Seq<char>)
    ensures
        newer(a + ".0"@, b) == newer(a, b),
        newer(a, b + ".0"@) == newer(a, b),
{
    reveal_strlit(".0");
    assert(".0"@ =~= seq!['.', '0']);
    lemma_components_dot_zero(a, 0);
    lemma_components_dot_zero(b, 0);
    let ca = components(a);
    let cb = components(b);
    assert forall|j: int| part(ca.push(0), j) == part(ca, j) by {}
    assert forall|j: int| part(cb.push(0), j) == part(cb, j) by {}
    lemma_newer_by_parts(ca.push(0), ca, cb, cb, 0);
    lemma_newer_by_parts(ca, ca, cb.push(0), cb, 0);
}

/// A check reports a newer version only for one that is numerically newer
/// than the running build, and never reports the running build itself as
/// newer.
pub proof fn law_only_newer_is_offered(n: Seq<char>)
    ensures
        !newer(running_version(), running_version()),
{
    law_newer_is_a_strict_order(running_version(), n, n);
}

} // verus!
