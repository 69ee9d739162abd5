//! Interpreter versions: the value type, its grammar, and the compatibility relation.

use vstd::prelude::*;
use crate::error::Error;
use crate::text::{chars_of, find_from, first_from, lemma_first_from, matches_at, occurs_at, starts_with, string_of};

verus! {

/// Where the alternate runtime's builds are downloaded from.
pub const PYPY_DOWNLOAD_URL: &'static str = "https://downloads.python.org/pypy/";

/// The runtime family a build belongs to.
#[derive(Debug, PartialEq, Eq, Structural, PartialOrd, Ord, Clone, Copy, Hash)]
pub enum Interpreter {
    CPython,
    PyPy,
}

/// A pre-release qualifier; `Final` marks a final release.
#[derive(Debug, PartialEq, Eq, Structural, PartialOrd, Ord, Clone, Copy, Hash)]
pub enum PreRelease {
    Final,
    Alpha(u8),
    Beta(u8),
    RC(u8),
}

/// An interpreter version. With `bugfix` absent it names a whole `major.minor` family.
#[derive(Debug, PartialEq, Eq, Structural, PartialOrd, Ord, Clone, Copy, Hash)]
pub struct Version {
    pub interpreter: Interpreter,
    pub major: u8,
    pub minor: u8,
    pub bugfix: Option<u8>,
    pub debug: bool,
    pub freethreaded: bool,
    pub prerelease: PreRelease,
}

pub open spec fn is_digit(c: char) -> bool {
    '0' <= c && c <= '9'
}

pub open spec fn digit_value(c: char) -> int {
    c as int - '0' as int
}

/// The number of consecutive decimal digits in `s` from position `i`.
pub open spec fn digit_run(s: Seq<char>, i: int) -> nat
    decreases s.len() - i,
{
    if 0 <= i < s.len() && is_digit(s[i]) {
        1 + digit_run(s, i + 1)
    } else {
        0
    }
}

/// The number that the decimal digits `d` spell.
pub open spec fn decimal_value(d: Seq<char>) -> int
    decreases d.len(),
{
    if d.len() == 0 {
        0
    } else {
        10 * decimal_value(d.drop_last()) + digit_value(d.last())
    }
}

/// A byte-sized decimal number at position `i`: the whole run of digits there,
/// which is non-empty and spells at most 255. Gives the value and the position after it.
pub open spec fn byte_at(s: Seq<char>, i: int) -> Option<(u8, int)> {
    let n = digit_run(s, i);
    let v = decimal_value(s.subrange(i, i + n));
    if n == 0 || v > 255 {
        None
    } else {
        Some((v as u8, i + n))
    }
}

pub open spec fn char_at(s: Seq<char>, i: int, c: char) -> bool {
    0 <= i < s.len() && s[i] == c
}

/// Applies a qualifier constructor to a number read at `i`.
pub open spec fn qualifier_at(s: Seq<char>, i: int, kind: int) -> Option<(PreRelease, int)> {
    match byte_at(s, i) {
        Some((n, j)) => Some(
            (
                if kind == 0 {
                    PreRelease::Alpha(n)
                } else if kind == 1 {
                    PreRelease::Beta(n)
                } else {
                    PreRelease::RC(n)
                },
                j,
            ),
        ),
        None => None,
    }
}

/// The optional pre-release qualifier at position `i` (`a`, `b` or `rc` and a number).
/// A qualifier letter without a number after it is an error.
pub open spec fn prerelease_at(s: Seq<char>, i: int) -> Option<(PreRelease, int)> {
    if char_at(s, i, 'a') {
        qualifier_at(s, i + 1, 0)
    } else if char_at(s, i, 'b') {
        qualifier_at(s, i + 1, 1)
    } else if char_at(s, i, 'r') && char_at(s, i + 1, 'c') {
        qualifier_at(s, i + 2, 2)
    } else {
        Some((PreRelease::Final, i))
    }
}

/// The optional `.bugfix` part at position `i`.
pub open spec fn bugfix_at(s: Seq<char>, i: int) -> Option<(u8, int)> {
    if char_at(s, i, '.') {
        byte_at(s, i + 1)
    } else {
        None
    }
}

/// The position after the optional `.bugfix` part at `i`.
pub open spec fn after_bugfix(s: Seq<char>, i: int) -> int {
    match bugfix_at(s, i) {
        Some((_, j)) => j,
        None => i,
    }
}

/// The build flags at position `i`: `t` for free-threaded, then `-debug`.
/// Gives the two flags and the position after them.
pub open spec fn flags_at(s: Seq<char>, i: int) -> (bool, bool, int) {
    let freethreaded = char_at(s, i, 't');
    let j = if freethreaded { i + 1 } else { i };
    let debug = occurs_at(s, "-debug"@, j);
    (freethreaded, debug, if debug { j + "-debug"@.len() } else { j })
}

/// The version that the grammar
/// `["pypy"] major "." minor ["." bugfix] [prerelease] ["t"] ["-debug"]`
/// reads from `s` at position `i`, with the position where it stops.
pub open spec fn version_at(s: Seq<char>, i: int) -> Option<(Version, int)> {
    let pypy = occurs_at(s, "pypy"@, i);
    let i0 = if pypy { i + "pypy"@.len() } else { i };
    match byte_at(s, i0) {
        None => None,
        Some((major, i1)) => if !char_at(s, i1, '.') {
            None
        } else {
            match byte_at(s, i1 + 1) {
                None => None,
                Some((minor, i2)) => match prerelease_at(s, after_bugfix(s, i2)) {
                    None => None,
                    Some((prerelease, i4)) => {
                        let (freethreaded, debug, end) = flags_at(s, i4);
                        Some(
                            (
                                Version {
                                    interpreter: if pypy {
                                        Interpreter::PyPy
                                    } else {
                                        Interpreter::CPython
                                    },
                                    major,
                                    minor,
                                    bugfix: match bugfix_at(s, i2) {
                                        Some((b, _)) => Some(b),
                                        None => None,
                                    },
                                    debug,
                                    freethreaded,
                                    prerelease,
                                },
                                end,
                            ),
                        )
                    },
                },
            }
        },
    }
}

/// The version that `s` spells when the grammar reads all of it.
pub open spec fn parsed(s: Seq<char>) -> Option<Version> {
    match version_at(s, 0) {
        Some((v, n)) => if n == s.len() {
            Some(v)
        } else {
            None
        },
        None => None,
    }
}

proof fn lemma_digit_run(s: Seq<char>, i: int)
    requires
        0 <= i <= s.len(),
    ensures
        i + digit_run(s, i) <= s.len(),
        forall|k: int| i <= k < i + digit_run(s, i) ==> is_digit(s[k]),
        i + digit_run(s, i) < s.len() ==> !is_digit(s[i + digit_run(s, i)]),
    decreases s.len() - i,
{
    if i < s.len() && is_digit(s[i]) {
        lemma_digit_run(s, i + 1);
    }
}

/// A run of digits from `i` to `j`, followed by a non-digit or the end, is the whole run.
proof fn lemma_digit_run_exact(s: Seq<char>, i: int, j: int)
    requires
        0 <= i <= j <= s.len(),
        forall|k: int| i <= k < j ==> is_digit(s[k]),
        j == s.len() || !is_digit(s[j]),
    ensures
        digit_run(s, i) == j - i,
    decreases j - i,
{
    if i < j {
        lemma_digit_run_exact(s, i + 1, j);
    }
}

proof fn lemma_decimal_nonneg(d: Seq<char>)
    requires
        forall|k: int| 0 <= k < d.len() ==> is_digit(d[k]),
    ensures
        decimal_value(d) >= 0,
    decreases d.len(),
{
    if d.len() > 0 {
        lemma_decimal_nonneg(d.drop_last());
    }
}

/// Reading more digits never makes a number smaller.
proof fn lemma_decimal_prefix(d: Seq<char>, k: int)
    requires
        0 <= k <= d.len(),
        forall|m: int| 0 <= m < d.len() ==> is_digit(d[m]),
    ensures
        decimal_value(d.subrange(0, k)) <= decimal_value(d),
    decreases d.len(),
{
    if k < d.len() {
        assert(d.drop_last().subrange(0, k) =~= d.subrange(0, k));
        lemma_decimal_prefix(d.drop_last(), k);
        lemma_decimal_nonneg(d.drop_last());
    } else {
        assert(d.subrange(0, k) =~= d);
    }
}

/// Reads a byte-sized decimal number at position `i`.
fn read_byte(s: &[char], i: usize) -> (r: Option<(u8, usize)>)
    requires
        i <= s@.len(),
    ensures
        match r {
            Some((v, j)) => byte_at(s@, i as int) == Some((v, j as int)) && i < j <= s@.len(),
            None => byte_at(s@, i as int) is None,
        },
{
    let mut j = i;
    let mut v: u32 = 0;
    while j < s.len() && '0' <= s[j] && s[j] <= '9'
        invariant
            i <= j <= s@.len(),
            forall|k: int| i <= k < j ==> is_digit(s@[k]),
            v == decimal_value(s@.subrange(i as int, j as int)),
            v <= 255,
        decreases s.len() - j,
    {
        let d = (s[j] as u32) - ('0' as u32);
        assert(s@.subrange(i as int, j + 1).drop_last() =~= s@.subrange(i as int, j as int));
        v = v * 10 + d;
        j += 1;
        if v > 255 {
            proof {
                lemma_digit_run(s@, i as int);
                let n = digit_run(s@, i as int);
                if n < j - i {
                    assert(is_digit(s@[i + n]));
                }
                let run = s@.subrange(i as int, i + n);
                assert(run.subrange(0, j - i) =~= s@.subrange(i as int, j as int));
                lemma_decimal_prefix(run, j - i);
            }
            return None;
        }
    }
    proof {
        lemma_digit_run_exact(s@, i as int, j as int);
    }
    if j == i {
        None
    } else {
        Some((v as u8, j))
    }
}

/// Reads a pre-release qualifier at position `i`.
fn read_prerelease(s: &[char], i: usize) -> (r: Option<(PreRelease, usize)>)
    requires
        i <= s@.len(),
    ensures
        match r {
            Some((p, j)) => prerelease_at(s@, i as int) == Some((p, j as int)) && i <= j <= s@.len(),
            None => prerelease_at(s@, i as int) is None,
        },
{
    if i < s.len() && s[i] == 'a' {
        match read_byte(s, i + 1) {
            Some((n, j)) => Some((PreRelease::Alpha(n), j)),
            None => None,
        }
    } else if i < s.len() && s[i] == 'b' {
        match read_byte(s, i + 1) {
            Some((n, j)) => Some((PreRelease::Beta(n), j)),
            None => None,
        }
    } else if i < s.len() && s[i] == 'r' && i + 1 < s.len() && s[i + 1] == 'c' {
        match read_byte(s, i + 2) {
            Some((n, j)) => Some((PreRelease::RC(n), j)),
            None => None,
        }
    } else {
        Some((PreRelease::Final, i))
    }
}

/// Reads the optional `.bugfix` part at position `i`.
fn read_bugfix(s: &[char], i: usize) -> (r: (Option<u8>, usize))
    requires
        i <= s@.len(),
    ensures
        r.1 == after_bugfix(s@, i as int),
        i <= r.1 <= s@.len(),
        r.0 == match bugfix_at(s@, i as int) {
            Some((b, _)) => Some(b),
            None => None::<u8>,
        },
{
    if i < s.len() && s[i] == '.' {
        match read_byte(s, i + 1) {
            Some((b, j)) => {
                return (Some(b), j);
            },
            None => {},
        }
    }
    (None, i)
}

/// Reads the build flags at position `i`.
fn read_flags(s: &[char], i: usize) -> (r: (bool, bool, usize))
    requires
        i <= s@.len(),
    ensures
        (r.0, r.1, r.2 as int) == flags_at(s@, i as int),
        i <= r.2 <= s@.len(),
{
    let freethreaded = i < s.len() && s[i] == 't';
    let j = if freethreaded {
        i + 1
    } else {
        i
    };
    let debug_text = chars_of("-debug");
    let debug = matches_at(s, debug_text.as_slice(), j);
    assert(debug_text@ == "-debug"@);
    let end = if debug {
        j + debug_text.len()
    } else {
        j
    };
    (freethreaded, debug, end)
}

/// Reads a version at position `i` of `s`, leaving whatever follows it.
pub(crate) fn read_version(s: &[char], i: usize) -> (r: Option<(Version, usize)>)
    requires
        i <= s@.len(),
    ensures
        match r {
            Some((v, j)) => version_at(s@, i as int) == Some((v, j as int)) && i <= j <= s@.len(),
            None => version_at(s@, i as int) is None,
        },
{
    let end = s.len();
    let pypy_text = chars_of("pypy");
    let pypy = matches_at(s, pypy_text.as_slice(), i);
    assert(pypy_text@ == "pypy"@);
    let i0 = if pypy {
        assert(occurs_at(s@, pypy_text@, i as int));
        assert(i + pypy_text@.len() <= end);
        i + pypy_text.len()
    } else {
        i
    };
    let (major, i1) = match read_byte(s, i0) {
        Some(x) => x,
        None => {
            return None;
        },
    };
    if !(i1 < s.len() && s[i1] == '.') {
        return None;
    }
    let (minor, i2) = match read_byte(s, i1 + 1) {
        Some(x) => x,
        None => {
            return None;
        },
    };
    let (bugfix, i3) = read_bugfix(s, i2);
    let (prerelease, i4) = match read_prerelease(s, i3) {
        Some(x) => x,
        None => {
            return None;
        },
    };
    let (freethreaded, debug, i6) = read_flags(s, i4);
    let interpreter = if pypy {
        Interpreter::PyPy
    } else {
        Interpreter::CPython
    };
    Some((Version { interpreter, major, minor, bugfix, debug, freethreaded, prerelease }, i6))
}

pub open spec fn digit_char(d: nat) -> char {
    seq!['0', '1', '2', '3', '4', '5', '6', '7', '8', '9'][d as int]
}

/// The decimal digits of `n`, without leading zeros.
pub open spec fn decimal(n: nat) -> Seq<char>
    decreases n,
{
    if n < 10 {
        seq![digit_char(n)]
    } else {
        decimal(n / 10).push(digit_char(n % 10))
    }
}

pub open spec fn prerelease_text(p: PreRelease) -> Seq<char> {
    match p {
        PreRelease::Final => seq![],
        PreRelease::Alpha(n) => seq!['a'] + decimal(n as nat),
        PreRelease::Beta(n) => seq!['b'] + decimal(n as nat),
        PreRelease::RC(n) => seq!['r', 'c'] + decimal(n as nat),
    }
}

/// How a version is written: `[pypy]major.minor[.bugfix][prerelease][t][-debug]`.
#[verifier::opaque]
pub open spec fn rendered(v: Version) -> Seq<char> {
    let prefix = match v.interpreter {
        Interpreter::CPython => seq![],
        Interpreter::PyPy => "pypy"@,
    };
    let flags = flags_text(v.freethreaded, v.debug);
    let family = prefix + decimal(v.major as nat) + seq!['.'] + decimal(v.minor as nat);
    match v.bugfix {
        Some(b) => family + seq!['.'] + decimal(b as nat) + prerelease_text(v.prerelease) + flags,
        None => family + prerelease_text(v.prerelease) + flags,
    }
}

fn digit(d: u8) -> (c: char)
    requires
        d < 10,
    ensures
        c == digit_char(d as nat),
{
    if d == 0 {
        '0'
    } else if d == 1 {
        '1'
    } else if d == 2 {
        '2'
    } else if d == 3 {
        '3'
    } else if d == 4 {
        '4'
    } else if d == 5 {
        '5'
    } else if d == 6 {
        '6'
    } else if d == 7 {
        '7'
    } else if d == 8 {
        '8'
    } else {
        '9'
    }
}

fn push_decimal(out: &mut Vec<char>, n: u8)
    ensures
        final(out)@ == old(out)@ + decimal(n as nat),
{
    if n >= 100 {
        out.push(digit(n / 100));
        out.push(digit(n / 10 % 10));
        out.push(digit(n % 10));
        assert((n / 10) as nat / 10 == (n / 100) as nat);
        assert(decimal((n / 100) as nat) == seq![digit_char((n / 100) as nat)]);
        assert(decimal((n / 10) as nat) == decimal((n / 100) as nat).push(
            digit_char((n / 10 % 10) as nat),
        ));
        assert(out@ =~= old(out)@ + decimal(n as nat));
    } else if n >= 10 {
        out.push(digit(n / 10));
        out.push(digit(n % 10));
        assert(decimal((n / 10) as nat) == seq![digit_char((n / 10) as nat)]);
        assert(out@ =~= old(out)@ + decimal(n as nat));
    } else {
        out.push(digit(n));
        assert(out@ =~= old(out)@ + decimal(n as nat));
    }
}

fn push_text(out: &mut Vec<char>, t: &str)
    ensures
        final(out)@ == old(out)@ + t@,
{
    let cs = chars_of(t);
    let mut k: usize = 0;
    while k < cs.len()
        invariant
            k <= cs@.len(),
            cs@ == t@,
            out@ == old(out)@ + t@.subrange(0, k as int),
        decreases cs.len() - k,
    {
        assert(t@.subrange(0, k + 1) =~= t@.subrange(0, k as int).push(cs@[k as int]));
        out.push(cs[k]);
        k += 1;
    }
    assert(t@.subrange(0, k as int) =~= t@);
}

fn push_prerelease(out: &mut Vec<char>, p: PreRelease)
    ensures
        final(out)@ == old(out)@ + prerelease_text(p),
{
    match p {
        PreRelease::Final => {},
        PreRelease::Alpha(n) => {
            out.push('a');
            push_decimal(out, n);
        },
        PreRelease::Beta(n) => {
            out.push('b');
            push_decimal(out, n);
        },
        PreRelease::RC(n) => {
            out.push('r');
            out.push('c');
            push_decimal(out, n);
        },
    }
    assert(out@ =~= old(out)@ + prerelease_text(p));
}

impl Version {
    /// Reads a version from the whole of `s`; anything left over makes it invalid.
    pub fn parse(s: &str) -> (r: Result<Version, Error>)
        ensures
            match parsed(s@) {
                Some(v) => r == Ok::<Version, Error>(v),
                None => r matches Err(Error::InvalidVersion(m)) && m@ == s@,
            },
    {
        let cs = chars_of(s);
        match read_version(cs.as_slice(), 0) {
            Some((v, n)) => {
                if n == cs.len() {
                    return Ok(v);
                }
            },
            None => {},
        }
        Err(Error::InvalidVersion(s.to_string()))
    }

    /// The text of the version, as `rendered` describes it.
    pub fn to_string(&self) -> (r: String)
        ensures
            r@ == rendered(*self),
    {
        let mut out: Vec<char> = Vec::new();
        if self.interpreter == Interpreter::PyPy {
            push_text(&mut out, "pypy");
        }
        push_decimal(&mut out, self.major);
        out.push('.');
        push_decimal(&mut out, self.minor);
        let ghost family = out@;
        match self.bugfix {
            Some(b) => {
                out.push('.');
                push_decimal(&mut out, b);
                push_prerelease(&mut out, self.prerelease);
                assert(out@ =~= family + seq!['.'] + decimal(b as nat) + prerelease_text(
                    self.prerelease,
                ));
            },
            None => {
                push_prerelease(&mut out, self.prerelease);
            },
        }
        let ghost head = out@;
        if self.freethreaded {
            out.push('t');
        }
        if self.debug {
            push_text(&mut out, "-debug");
        }
        assert(out@ =~= head + (if self.freethreaded {
            seq!['t']
        } else {
            seq![]
        }) + (if self.debug {
            "-debug"@
        } else {
            seq![]
        }));
        reveal(rendered);
        assert(out@ =~= rendered(*self));
        string_of(out.as_slice())
    }
}

proof fn lemma_decimal(n: nat)
    ensures
        decimal(n).len() >= 1,
        forall|k: int| 0 <= k < decimal(n).len() ==> is_digit(#[trigger] decimal(n)[k]),
        decimal_value(decimal(n)) == n,
    decreases n,
{
    let c = digit_char(n % 10);
    assert(is_digit(c) && digit_value(c) == n % 10) by {
        let d = n % 10;
        if d == 0 {} else if d == 1 {} else if d == 2 {} else if d == 3 {} else if d == 4 {
        } else if d == 5 {} else if d == 6 {} else if d == 7 {} else if d == 8 {} else {}
    }
    if n < 10 {
        assert(decimal(n).drop_last() =~= Seq::<char>::empty());
        assert(decimal(n).last() == c);
        assert(decimal_value(decimal(n)) == 10 * decimal_value(Seq::<char>::empty()) + digit_value(c));
    } else {
        lemma_decimal(n / 10);
        assert(decimal(n).drop_last() =~= decimal(n / 10));
        assert(decimal(n).last() == c);
        assert(decimal_value(decimal(n)) == 10 * decimal_value(decimal(n / 10)) + digit_value(c));
        assert(10 * (n / 10) + n % 10 == n);
    }
}

/// The decimal digits of `n` followed by a non-digit read back as `n`.
proof fn lemma_byte_in(pre: Seq<char>, n: u8, rest: Seq<char>)
    requires
        rest.len() == 0 || !is_digit(rest[0]),
    ensures
        byte_at(pre + decimal(n as nat) + rest, pre.len() as int) == Some(
            (n, (pre.len() + decimal(n as nat).len()) as int),
        ),
{
    let d = decimal(n as nat);
    let s = pre + d + rest;
    let i = pre.len() as int;
    let j = i + d.len();
    lemma_decimal(n as nat);
    assert(s.subrange(i, j) =~= d);
    assert forall|k: int| i <= k < j implies is_digit(s[k]) by {
        assert(s[k] == d[k - i]);
    }
    if j < s.len() {
        assert(s[j] == rest[0]);
    }
    lemma_digit_run_exact(s, i, j);
}

pub open spec fn flags_text(freethreaded: bool, debug: bool) -> Seq<char> {
    (if freethreaded {
        seq!['t']
    } else {
        seq![]
    }) + (if debug {
        "-debug"@
    } else {
        seq![]
    })
}

proof fn lemma_flags_in(x: Seq<char>, freethreaded: bool, debug: bool)
    ensures
        flags_at(x + flags_text(freethreaded, debug), x.len() as int) == (
            freethreaded,
            debug,
            (x + flags_text(freethreaded, debug)).len() as int,
        ),
        flags_text(freethreaded, debug).len() == 0 || flags_text(freethreaded, debug)[0] == 't'
            || flags_text(freethreaded, debug)[0] == '-',
{
    reveal_strlit("-debug");
    let f = flags_text(freethreaded, debug);
    let s = x + f;
    let i = x.len() as int;
    if freethreaded {
        assert(s[i] == 't');
        assert(f[0] == 't');
    } else if debug {
        assert(s[i] == '-');
        assert(f[0] == '-');
    }
    let j = if freethreaded { i + 1 } else { i };
    if debug {
        assert(s.subrange(j, j + 6) =~= "-debug"@);
    }
}

proof fn lemma_prerelease_in(x: Seq<char>, p: PreRelease, f: Seq<char>)
    requires
        f.len() == 0 || f[0] == 't' || f[0] == '-',
    ensures
        prerelease_at(x + prerelease_text(p) + f, x.len() as int) == Some(
            (p, (x.len() + prerelease_text(p).len()) as int),
        ),
{
    let s = x + prerelease_text(p) + f;
    let i = x.len() as int;
    match p {
        PreRelease::Final => {
            if f.len() > 0 {
                assert(s[i] == f[0]);
            }
        },
        PreRelease::Alpha(n) => {
            assert(s[i] == 'a');
            assert(s =~= (x + seq!['a']) + decimal(n as nat) + f);
            lemma_byte_in(x + seq!['a'], n, f);
        },
        PreRelease::Beta(n) => {
            assert(s[i] == 'b');
            assert(s =~= (x + seq!['b']) + decimal(n as nat) + f);
            lemma_byte_in(x + seq!['b'], n, f);
        },
        PreRelease::RC(n) => {
            assert(s[i] == 'r');
            assert(s[i + 1] == 'c');
            assert(s =~= (x + seq!['r', 'c']) + decimal(n as nat) + f);
            lemma_byte_in(x + seq!['r', 'c'], n, f);
        },
    }
}

proof fn lemma_prefix_in(v: Version, rest: Seq<char>)
    ensures
        occurs_at(
            (match v.interpreter {
                Interpreter::CPython => seq![],
                Interpreter::PyPy => "pypy"@,
            }) + decimal(v.major as nat) + rest,
            "pypy"@,
            0,
        ) == (v.interpreter == Interpreter::PyPy),
{
    reveal_strlit("pypy");
    lemma_decimal(v.major as nat);
    let p: Seq<char> = match v.interpreter {
        Interpreter::CPython => seq![],
        Interpreter::PyPy => "pypy"@,
    };
    let s = p + decimal(v.major as nat) + rest;
    if v.interpreter == Interpreter::PyPy {
        assert(s.subrange(0, 4) =~= "pypy"@);
    } else {
        assert(s[0] == decimal(v.major as nat)[0]);
        if s.len() >= 4 {
            assert(s.subrange(0, 4)[0] != "pypy"@[0]);
        }
    }
}

proof fn lemma_version_from_parts(s: Seq<char>, v: Version, i0: int, i1: int, i2: int, i3: int, i4: int)
    requires
        v.bugfix is Some,
        occurs_at(s, "pypy"@, 0) == (v.interpreter == Interpreter::PyPy),
        i0 == (if occurs_at(s, "pypy"@, 0) {
            "pypy"@.len() as int
        } else {
            0
        }),
        byte_at(s, i0) == Some((v.major, i1)),
        char_at(s, i1, '.'),
        byte_at(s, i1 + 1) == Some((v.minor, i2)),
        bugfix_at(s, i2) == Some((v.bugfix->0, i3)),
        prerelease_at(s, i3) == Some((v.prerelease, i4)),
        flags_at(s, i4) == (v.freethreaded, v.debug, s.len() as int),
    ensures
        parsed(s) == Some(v),
{
}

pub open spec fn prefix_text(i: Interpreter) -> Seq<char> {
    match i {
        Interpreter::CPython => seq![],
        Interpreter::PyPy => "pypy"@,
    }
}

/// The text of a concrete version up to and including its bugfix number.
pub open spec fn release_head(v: Version) -> Seq<char> {
    prefix_text(v.interpreter) + decimal(v.major as nat) + seq!['.'] + decimal(v.minor as nat)
        + seq!['.'] + decimal(v.bugfix->0 as nat)
}

proof fn lemma_rendered_parts(v: Version)
    requires
        v.bugfix is Some,
    ensures
        rendered(v) == release_head(v) + prerelease_text(v.prerelease) + flags_text(
            v.freethreaded,
            v.debug,
        ),
{
    reveal(rendered);
    assert(rendered(v) =~= release_head(v) + prerelease_text(v.prerelease) + flags_text(
        v.freethreaded,
        v.debug,
    ));
}

/// The part of a rendered concrete version after its major number.
pub open spec fn after_major(v: Version) -> Seq<char> {
    seq!['.'] + decimal(v.minor as nat) + seq!['.'] + decimal(v.bugfix->0 as nat)
        + prerelease_text(v.prerelease) + flags_text(v.freethreaded, v.debug)
}

proof fn lemma_read_prefix(v: Version)
    requires
        v.bugfix is Some,
    ensures
        occurs_at(rendered(v), "pypy"@, 0) == (v.interpreter == Interpreter::PyPy),
        prefix_text(v.interpreter).len() == (if occurs_at(rendered(v), "pypy"@, 0) {
            "pypy"@.len() as int
        } else {
            0
        }),
        rendered(v) == prefix_text(v.interpreter) + decimal(v.major as nat) + after_major(v),
{
    lemma_rendered_parts(v);
    assert(rendered(v) =~= prefix_text(v.interpreter) + decimal(v.major as nat) + after_major(v));
    lemma_prefix_in(v, after_major(v));
}

proof fn lemma_read_major(v: Version)
    requires
        v.bugfix is Some,
    ensures
        ({
            let i0 = prefix_text(v.interpreter).len() as int;
            let i1 = i0 + decimal(v.major as nat).len();
            byte_at(rendered(v), i0) == Some((v.major, i1)) && char_at(rendered(v), i1, '.')
        }),
{
    lemma_read_prefix(v);
    let p = prefix_text(v.interpreter);
    lemma_byte_in(p, v.major, after_major(v));
    assert(rendered(v)[(p.len() + decimal(v.major as nat).len()) as int] == after_major(v)[0]);
}

proof fn lemma_read_minor(v: Version)
    requires
        v.bugfix is Some,
    ensures
        ({
            let i1 = (prefix_text(v.interpreter).len() + decimal(v.major as nat).len()) as int;
            let i2 = i1 + 1 + decimal(v.minor as nat).len();
            byte_at(rendered(v), i1 + 1) == Some((v.minor, i2)) && char_at(rendered(v), i2, '.')
        }),
{
    lemma_rendered_parts(v);
    let front = prefix_text(v.interpreter) + decimal(v.major as nat) + seq!['.'];
    let r2 = seq!['.'] + decimal(v.bugfix->0 as nat) + prerelease_text(v.prerelease)
        + flags_text(v.freethreaded, v.debug);
    assert(rendered(v) =~= front + decimal(v.minor as nat) + r2);
    lemma_byte_in(front, v.minor, r2);
    assert(rendered(v)[(front.len() + decimal(v.minor as nat).len()) as int] == r2[0]);
}

proof fn lemma_read_release(v: Version)
    requires
        v.bugfix is Some,
    ensures
        ({
            let s = rendered(v);
            let head = release_head(v);
            let i2 = head.len() - 1 - decimal(v.bugfix->0 as nat).len();
            let i3 = head.len() as int;
            let i4 = i3 + prerelease_text(v.prerelease).len();
            &&& bugfix_at(s, i2) == Some((v.bugfix->0, i3))
            &&& prerelease_at(s, i3) == Some((v.prerelease, i4))
            &&& flags_at(s, i4) == (v.freethreaded, v.debug, s.len() as int)
        }),
{
    lemma_rendered_parts(v);
    let s = rendered(v);
    let head = release_head(v);
    let pre = prerelease_text(v.prerelease);
    let f = flags_text(v.freethreaded, v.debug);
    let bu = decimal(v.bugfix->0 as nat);
    let front = prefix_text(v.interpreter) + decimal(v.major as nat) + seq!['.'] + decimal(
        v.minor as nat,
    ) + seq!['.'];
    lemma_flags_in(head + pre, v.freethreaded, v.debug);
    let tail = pre + f;
    if tail.len() > 0 && pre.len() > 0 {
        assert(tail[0] == pre[0]);
    } else if tail.len() > 0 {
        assert(tail[0] == f[0]);
    }
    assert(s =~= front + bu + tail);
    lemma_byte_in(front, v.bugfix->0, tail);
    assert(s[front.len() as int - 1] == '.');
    lemma_prerelease_in(head, v.prerelease, f);
}

/// Writing a concrete version and reading the text back gives the same version.
pub proof fn lemma_round_trip(v: Version)
    requires
        v.bugfix is Some,
    ensures
        parsed(rendered(v)) == Some(v),
{
    lemma_read_prefix(v);
    lemma_read_major(v);
    lemma_read_minor(v);
    lemma_read_release(v);
    let i0 = prefix_text(v.interpreter).len() as int;
    let i1 = i0 + decimal(v.major as nat).len();
    let i2 = i1 + 1 + decimal(v.minor as nat).len();
    let i3 = release_head(v).len() as int;
    assert(i2 == i3 - 1 - decimal(v.bugfix->0 as nat).len());
    lemma_version_from_parts(
        rendered(v),
        v,
        i0,
        i1,
        i2,
        i3,
        i3 + prerelease_text(v.prerelease).len(),
    );
}

/// Whether a build of `candidate` satisfies a request for `requested`: the two are
/// equal, or the request names a final family (no bugfix) and the candidate is a
/// final bugfix release of it with the same build flags.
pub open spec fn is_compatible(requested: Version, candidate: Version) -> bool {
    requested == candidate || (requested.interpreter == candidate.interpreter && requested.major
        == candidate.major && requested.minor == candidate.minor && requested.debug
        == candidate.debug && requested.freethreaded == candidate.freethreaded
        && requested.prerelease == PreRelease::Final && candidate.prerelease == PreRelease::Final
        && requested.bugfix is None && candidate.bugfix is Some)
}

impl Version {
    /// Whether `candidate` satisfies this version taken as a request.
    pub fn compatible(&self, candidate: &Self) -> (r: bool)
        ensures
            r == is_compatible(*self, *candidate),
    {
        if self == candidate {
            true
        } else {
            self.interpreter == candidate.interpreter && self.major == candidate.major
                && self.minor == candidate.minor && self.debug == candidate.debug
                && self.freethreaded == candidate.freethreaded && self.prerelease
                == PreRelease::Final && candidate.prerelease == PreRelease::Final
                && self.bugfix.is_none() && candidate.bugfix.is_some()
        }
    }
}

impl std::str::FromStr for Version {
    type Err = Error;

    fn from_str(s: &str) -> (r: Result<Version, Error>)
        ensures
            match parsed(s@) {
                Some(v) => r == Ok::<Version, Error>(v),
                None => r matches Err(Error::InvalidVersion(m)) && m@ == s@,
            },
    {
        Version::parse(s)
    }
}

/// Reads the run of digits at position `i`, giving the position after it.
fn read_digits(s: &[char], i: usize) -> (r: usize)
    requires
        i <= s@.len(),
    ensures
        r == i + digit_run(s@, i as int),
        r <= s@.len(),
{
    proof {
        lemma_digit_run(s@, i as int);
    }
    let mut j = i;
    while j < s.len() && '0' <= s[j] && s[j] <= '9'
        invariant
            i <= j <= s@.len(),
            forall|k: int| i <= k < j ==> is_digit(s@[k]),
        decreases s.len() - j,
    {
        j += 1;
    }
    proof {
        lemma_digit_run_exact(s@, i as int, j as int);
    }
    j
}

/// What an upstream CPython asset name `cpython-<version>+<digits>...` gives: the digits
/// as release tag, and the version. The text after the tag also sets the build flags by
/// containment: `freethreaded` anywhere in it marks a free-threaded build, and `debug`
/// anywhere in it a debug build.
pub open spec fn cpython_filename(s: Seq<char>) -> Option<(Seq<char>, Version)> {
    let base = "cpython-"@.len() as int;
    if !starts_with(s, "cpython-"@) {
        None
    } else {
        match version_at(s, base) {
            None => None,
            Some((v, i)) => {
                let rest = i + 1 + digit_run(s, i + 1);
                if !char_at(s, i, '+') || rest == i + 1 {
                    None
                } else {
                    let ft = first_from(s, "freethreaded"@, rest);
                    let debug = first_from(s, "debug"@, rest);
                    Some(
                        (
                            s.subrange(i + 1, rest),
                            Version {
                                freethreaded: v.freethreaded || ft is Some,
                                debug: v.debug || debug is Some,
                                ..v
                            },
                        ),
                    )
                }
            },
        }
    }
}

/// What an upstream PyPy download URL `<download prefix>pypy<major>.<minor>-<tag>-...`
/// gives: the file name after the prefix, the tag, and the version family.
pub open spec fn pypy_url(s: Seq<char>) -> Option<(Seq<char>, Seq<char>, Version)> {
    let base = PYPY_DOWNLOAD_URL@.len() as int;
    let i0 = base + "pypy"@.len();
    if !starts_with(s, PYPY_DOWNLOAD_URL@) || !occurs_at(s, "pypy"@, base) {
        None
    } else {
        match byte_at(s, i0) {
            None => None,
            Some((major, i1)) => if !char_at(s, i1, '.') {
                None
            } else {
                match byte_at(s, i1 + 1) {
                    None => None,
                    Some((minor, i2)) => if !char_at(s, i2, '-') {
                        None
                    } else {
                        match first_from(s, "-"@, i2 + 1) {
                            None => None,
                            Some(k) => Some(
                                (
                                    s.subrange(base, s.len() as int),
                                    s.subrange(i2 + 1, k),
                                    Version {
                                        interpreter: Interpreter::PyPy,
                                        major,
                                        minor,
                                        bugfix: None,
                                        debug: false,
                                        freethreaded: false,
                                        prerelease: PreRelease::Final,
                                    },
                                ),
                            ),
                        }
                    },
                }
            },
        }
    }
}

/// Reads the release tag and version from an upstream CPython asset name.
pub fn parse_cpython_filename(filename: &str) -> (r: Result<(String, Version), Error>)
    ensures
        match cpython_filename(filename@) {
            Some((tag, v)) => r matches Ok((t, w)) && t@ == tag && w == v,
            None => r matches Err(Error::ParseAsset(m)) && m@ == filename@,
        },
{
    let cs = chars_of(filename);
    let s = cs.as_slice();
    let prefix = chars_of("cpython-");
    if !matches_at(s, prefix.as_slice(), 0) {
        return Err(Error::ParseAsset(filename.to_string()));
    }
    let (version, i) = match read_version(s, prefix.len()) {
        Some(x) => x,
        None => {
            return Err(Error::ParseAsset(filename.to_string()));
        },
    };
    if !(i < s.len() && s[i] == '+') {
        return Err(Error::ParseAsset(filename.to_string()));
    }
    let rest = read_digits(s, i + 1);
    if rest == i + 1 {
        return Err(Error::ParseAsset(filename.to_string()));
    }
    let ft_text = chars_of("freethreaded");
    let debug_text = chars_of("debug");
    let ft = find_from(s, ft_text.as_slice(), rest);
    let debug = find_from(s, debug_text.as_slice(), rest).is_some();
    let tag = filename.substring_char(i + 1, rest).to_string();
    let mut v = version;
    v.freethreaded = version.freethreaded || ft.is_some();
    v.debug = version.debug || debug;
    Ok((tag, v))
}

/// Reads the file name, release tag and version from an upstream PyPy download URL.
pub fn parse_pypy_url(url: &str) -> (r: Result<(String, String, Version), Error>)
    ensures
        match pypy_url(url@) {
            Some((name, tag, v)) => r matches Ok((n, t, w)) && n@ == name && t@ == tag && w == v,
            None => r matches Err(Error::ParseAsset(m)) && m@ == url@,
        },
{
    let cs = chars_of(url);
    let s = cs.as_slice();
    let end = s.len();
    let prefix = chars_of(PYPY_DOWNLOAD_URL);
    let pypy_text = chars_of("pypy");
    let base = prefix.len();
    if !matches_at(s, prefix.as_slice(), 0) || !matches_at(s, pypy_text.as_slice(), base) {
        return Err(Error::ParseAsset(url.to_string()));
    }
    assert(base + pypy_text@.len() <= end);
    let (major, i1) = match read_byte(s, base + pypy_text.len()) {
        Some(x) => x,
        None => {
            return Err(Error::ParseAsset(url.to_string()));
        },
    };
    if !(i1 < s.len() && s[i1] == '.') {
        return Err(Error::ParseAsset(url.to_string()));
    }
    let (minor, i2) = match read_byte(s, i1 + 1) {
        Some(x) => x,
        None => {
            return Err(Error::ParseAsset(url.to_string()));
        },
    };
    if !(i2 < s.len() && s[i2] == '-') {
        return Err(Error::ParseAsset(url.to_string()));
    }
    let dash = chars_of("-");
    let k = match find_from(s, dash.as_slice(), i2 + 1) {
        Some(k) => k,
        None => {
            return Err(Error::ParseAsset(url.to_string()));
        },
    };
    proof {
        lemma_first_from(s@, dash@, i2 + 1);
    }
    let name = url.substring_char(base, s.len()).to_string();
    let tag = url.substring_char(i2 + 1, k).to_string();
    let version = Version {
        interpreter: Interpreter::PyPy,
        major,
        minor,
        bugfix: None,
        debug: false,
        freethreaded: false,
        prerelease: PreRelease::Final,
    };
    Ok((name, tag, version))
}

} // verus!
