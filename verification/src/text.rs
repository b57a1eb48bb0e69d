//! Strings as sequences of characters.
//!
//! Rust strings are read here through their character sequence, which is what
//! every contract of this crate speaks of.

use vstd::prelude::*;
use vstd::string::*;

verus! {

/// `pat` occurs in `hay`, starting at position `at`.
pub open spec fn occurs_at(hay: Seq<char>, pat: Seq<char>, at: int) -> bool {
    0 <= at && at + pat.len() <= hay.len() && hay.subrange(at, at + pat.len()) == pat
}

/// `pat` occurs somewhere in `hay`.
pub open spec fn is_infix(hay: Seq<char>, pat: Seq<char>) -> bool {
    exists|at: int| occurs_at(hay, pat, at)
}

/// The views of a sequence of strings.
pub open spec fn views(strings: Seq<String>) -> Seq<Seq<char>> {
    strings.map_values(|s: String| s@)
}

/// All strings of `parts`, with `sep` between each two neighbours.
pub open spec fn joined(parts: Seq<Seq<char>>, sep: Seq<char>) -> Seq<char>
    decreases parts.len(),
{
    if parts.len() == 0 {
        Seq::empty()
    } else if parts.len() == 1 {
        parts[0]
    } else {
        joined(parts.drop_last(), sep) + sep + parts.last()
    }
}

/// The character of a decimal digit.
pub open spec fn digit_char(d: nat) -> char {
    ('0' as u32 + d) as char
}

/// A number in decimal notation, without leading zeros.
pub open spec fn decimal_of(n: nat) -> Seq<char>
    decreases n,
{
    if n < 10 {
        seq![digit_char(n)]
    } else {
        decimal_of(n / 10).push(digit_char(n % 10))
    }
}

/// `a` comes before `b`, or equals it, in the order of strings: the first
/// character in which they differ decides, and a prefix comes first.
pub open spec fn lex_le(a: Seq<char>, b: Seq<char>) -> bool
    decreases a.len(),
{
    if a.len() == 0 {
        true
    } else if b.len() == 0 {
        false
    } else if a[0] == b[0] {
        lex_le(a.drop_first(), b.drop_first())
    } else {
        (a[0] as u32) < (b[0] as u32)
    }
}

/// The characters of a string slice, in order.
pub fn chars_of(s: &str) -> (out: Vec<char>)
    ensures
        out@ == s@,
{
    let mut out: Vec<char> = Vec::new();
    for c in it: s.chars()
        invariant
            out@ == s@.take(it.index()),
            it.seq() == s@,
    {
        out.push(c);
    }
    proof {
        assert(s@.take(s@.len() as int) =~= s@);
    }
    out
}

/// Whether `pat` stands in `hay` at position `at`.
fn matches_at(hay: &Vec<char>, pat: &Vec<char>, at: usize) -> (b: bool)
    requires
        at + pat.len() <= hay.len(),
    ensures
        b == occurs_at(hay@, pat@, at as int),
{
    let mut i: usize = 0;
    while i < pat.len()
        invariant
            i <= pat.len(),
            at + pat.len() <= hay.len(),
            forall|j: int| 0 <= j < i ==> hay@[at + j] == #[trigger] pat@[j],
        decreases pat.len() - i,
    {
        if hay[at + i] != pat[i] {
            proof {
                assert(hay@.subrange(at as int, at + pat@.len())[i as int] == hay@[at + i]);
            }
            return false;
        }
        i += 1;
    }
    proof {
        assert(hay@.subrange(at as int, at + pat@.len()) =~= pat@);
    }
    true
}

/// Whether `pat` occurs in `hay`.
pub fn contains(hay: &str, pat: &str) -> (b: bool)
    ensures
        b == is_infix(hay@, pat@),
{
    let h: Vec<char> = chars_of(hay);
    let p: Vec<char> = chars_of(pat);
    if p.len() > h.len() {
        return false;
    }
    let last: usize = h.len() - p.len();
    let mut at: usize = 0;
    loop
        invariant
            h@ == hay@,
            p@ == pat@,
            last == h.len() - p.len(),
            at <= last,
            forall|j: int| 0 <= j < at ==> !#[trigger] occurs_at(hay@, pat@, j),
        decreases last - at,
    {
        if matches_at(&h, &p, at) {
            return true;
        }
        if at == last {
            return false;
        }
        at += 1;
    }
}

/// Whether two string slices hold the same characters.
pub fn same(a: &str, b: &str) -> (r: bool)
    ensures
        r == (a@ == b@),
{
    let x: Vec<char> = chars_of(a);
    let y: Vec<char> = chars_of(b);
    if x.len() != y.len() {
        return false;
    }
    let r = matches_at(&x, &y, 0);
    proof {
        assert(x@.subrange(0, y@.len() as int) =~= x@);
    }
    r
}

/// Whether `s` begins with `prefix`.
pub fn starts_with(s: &str, prefix: &str) -> (r: bool)
    ensures
        r == prefix@.is_prefix_of(s@),
{
    let x: Vec<char> = chars_of(s);
    let y: Vec<char> = chars_of(prefix);
    if y.len() > x.len() {
        return false;
    }
    matches_at(&x, &y, 0)
}

/// Whether `a` comes before `b` in the order of strings, or equals it.
pub fn at_or_before(a: &str, b: &str) -> (r: bool)
    ensures
        r == lex_le(a@, b@),
{
    let x: Vec<char> = chars_of(a);
    let y: Vec<char> = chars_of(b);
    let mut i: usize = 0;
    proof {
        assert(x@.skip(0) =~= x@);
        assert(y@.skip(0) =~= y@);
    }
    while i < x.len()
        invariant
            x@ == a@,
            y@ == b@,
            i <= x.len(),
            i <= y.len(),
            lex_le(x@, y@) == lex_le(x@.skip(i as int), y@.skip(i as int)),
        decreases x.len() - i,
    {
        if i == y.len() {
            return false;
        }
        if x[i] != y[i] {
            return (x[i] as u32) < (y[i] as u32);
        }
        proof {
            assert(x@.skip(i as int).drop_first() =~= x@.skip(i + 1));
            assert(y@.skip(i as int).drop_first() =~= y@.skip(i + 1));
        }
        i += 1;
    }
    true
}

/// All strings of `parts`, with `sep` between each two neighbours.
pub fn join(parts: &Vec<String>, sep: &str) -> (out: String)
    ensures
        out@ == joined(views(parts@), sep@),
{
    let mut out: String = String::new();
    let mut i: usize = 0;
    while i < parts.len()
        invariant
            i <= parts.len(),
            out@ == joined(views(parts@).take(i as int), sep@),
        decreases parts.len() - i,
    {
        proof {
            let v = views(parts@);
            assert(v.take(i + 1).drop_last() =~= v.take(i as int));
            assert(v.take(i + 1).last() == parts@[i as int]@);
            assert(v.take(0) =~= Seq::empty());
            if i == 0 {
                assert(Seq::<char>::empty() + parts@[0]@ =~= parts@[0]@);
            }
        }
        if i > 0 {
            out.append(sep);
        }
        out.append(parts[i].as_str());
        i += 1;
    }
    proof {
        assert(views(parts@).take(parts@.len() as int) =~= views(parts@));
    }
    out
}

/// The digit `d` as a string.
fn digit(d: usize) -> (out: &'static str)
    requires
        d < 10,
    ensures
        out@ == seq![digit_char(d as nat)],
{
    proof {
        reveal_strlit("0");
        reveal_strlit("1");
        reveal_strlit("2");
        reveal_strlit("3");
        reveal_strlit("4");
        reveal_strlit("5");
        reveal_strlit("6");
        reveal_strlit("7");
        reveal_strlit("8");
        reveal_strlit("9");
    }
    match d {
        0 => "0",
        1 => "1",
        2 => "2",
        3 => "3",
        4 => "4",
        5 => "5",
        6 => "6",
        7 => "7",
        8 => "8",
        _ => "9",
    }
}

/// `n` in decimal notation.
pub fn decimal(n: usize) -> (out: String)
    ensures
        out@ == decimal_of(n as nat),
{
    long_decimal(n as u128)
}

/// A large `n` in decimal notation.
pub fn long_decimal(n: u128) -> (out: String)
    ensures
        out@ == decimal_of(n as nat),
    decreases n,
{
    if n < 10 {
        String::from_str(digit(n as usize))
    } else {
        let mut out: String = long_decimal(n / 10);
        out.append(digit((n % 10) as usize));
        proof {
            assert(decimal_of((n / 10) as nat) + seq![digit_char((n % 10) as nat)]
                =~= decimal_of((n / 10) as nat).push(digit_char((n % 10) as nat)));
        }
        out
    }
}

/// How many steps `v` is, to the nearest; halfway to the even number.
pub open spec fn nearest(v: nat, step: nat) -> nat {
    let (t, rest) = (v / step, v % step);
    if 2 * rest > step || (2 * rest == step && t % 2 == 1) {
        t + 1
    } else {
        t
    }
}

/// How many steps `v` is, to the nearest.
pub fn nearest_of(v: u128, step: u64) -> (r: u128)
    requires
        1 < step,
    ensures
        r == nearest(v as nat, step as nat),
{
    let t: u128 = v / step as u128;
    let rest: u128 = v % step as u128;
    proof {
        assert(v as nat / step as nat <= v as nat / 2) by (nonlinear_arith)
            requires
                1 < step,
        ;
    }
    if 2 * rest > step as u128 || (2 * rest == step as u128 && t % 2 == 1) {
        t + 1
    } else {
        t
    }
}

/// Rounding goes by no more than half a step.
pub proof fn law_nearest_is_near(v: nat, step: nat)
    requires
        step > 0,
    ensures
        2 * v <= 2 * (nearest(v, step) * step) + step,
        2 * (nearest(v, step) * step) <= 2 * v + step,
{
    let (t, rest) = (v / step, v % step);
    assert(v == t * step + rest && rest < step) by (nonlinear_arith)
        requires
            step > 0,
            t == v / step,
            rest == v % step,
    ;
    assert((t + 1) * step == t * step + step) by (nonlinear_arith);
}

/// A number of hundredths or tenths with its point.
pub open spec fn fixed_of(count: nat, places: Places) -> Seq<char> {
    match places {
        Places::Zero => decimal_of(count),
        Places::One => decimal_of(count / 10) + "."@ + decimal_of(count % 10),
        Places::Two => decimal_of(count / 100) + "."@ + decimal_of((count % 100) / 10) + decimal_of(
            count % 10,
        ),
    }
}

/// How many places there are behind the point.
#[derive(Clone, Copy, PartialEq, Eq, Structural, Debug)]
pub enum Places {
    Zero,
    One,
    Two,
}

/// A number of whole, tenths or hundredths with its point.
pub fn fixed(count: u128, places: Places) -> (out: String)
    ensures
        out@ == fixed_of(count as nat, places),
{
    match places {
        Places::Zero => long_decimal(count),
        Places::One => {
            let mut out: String = long_decimal(count / 10);
            out.append(".");
            out.append(long_decimal(count % 10).as_str());
            out
        },
        Places::Two => {
            let mut out: String = long_decimal(count / 100);
            out.append(".");
            out.append(long_decimal((count % 100) / 10).as_str());
            out.append(long_decimal(count % 10).as_str());
            out
        },
    }
}

/// A number with its sign, which it always has; `step` is what the last place
/// stands for.
pub open spec fn signed_of(v: int, step: nat, places: Places) -> Seq<char> {
    if v < 0 {
        "-"@ + fixed_of(nearest((-v) as nat, step), places)
    } else {
        "+"@ + fixed_of(nearest(v as nat, step), places)
    }
}

/// A number with its sign.
pub fn signed(v: i64, step: u64, places: Places) -> (out: String)
    requires
        1 < step,
    ensures
        out@ == signed_of(v as int, step as nat, places),
{
    let mut out: String = String::from_str(
        if v < 0 {
            "-"
        } else {
            "+"
        },
    );
    let mag: u128 = if v < 0 {
        (-(v as i128)) as u128
    } else {
        v as u128
    };
    out.append(fixed(nearest_of(mag, step), places).as_str());
    out
}

/// What is before the point of a number of which the last `k` digits are behind it.
pub open spec fn before_point(n: nat, k: nat) -> nat
    decreases k,
{
    if k == 0 {
        n
    } else {
        before_point(n / 10, (k - 1) as nat)
    }
}

/// The last `k` digits of a number.
pub open spec fn behind_point(n: nat, k: nat) -> Seq<char>
    decreases k,
{
    if k == 0 {
        Seq::empty()
    } else {
        behind_point(n / 10, (k - 1) as nat).push(digit_char(n % 10))
    }
}

/// A number with `k` places behind the point; `step` is what the last place stands
/// for. Only a number below zero has a sign.
pub open spec fn point_of(v: int, step: nat, k: nat) -> Seq<char> {
    let n = nearest(if v < 0 {
        (-v) as nat
    } else {
        v as nat
    }, step);
    (if v < 0 {
        "-"@
    } else {
        ""@
    }) + decimal_of(before_point(n, k)) + "."@ + behind_point(n, k)
}

fn last_digits(n: u128, k: usize) -> (out: String)
    ensures
        out@ == behind_point(n as nat, k as nat),
    decreases k,
{
    if k == 0 {
        String::new()
    } else {
        let mut out: String = last_digits(n / 10, k - 1);
        out.append(digit((n % 10) as usize));
        proof {
            assert(behind_point((n / 10) as nat, (k - 1) as nat) + seq![
                digit_char((n % 10) as nat),
            ] =~= behind_point((n / 10) as nat, (k - 1) as nat).push(
                digit_char((n % 10) as nat),
            ));
        }
        out
    }
}

fn first_digits(n: u128, k: usize) -> (r: u128)
    ensures
        r == before_point(n as nat, k as nat),
    decreases k,
{
    if k == 0 {
        n
    } else {
        first_digits(n / 10, k - 1)
    }
}

/// A number with `k` places behind the point, to the nearest.
pub fn point(v: i64, step: u64, k: usize) -> (out: String)
    requires
        1 < step,
    ensures
        out@ == point_of(v as int, step as nat, k as nat),
{
    let mag: u128 = if v < 0 {
        (-(v as i128)) as u128
    } else {
        v as u128
    };
    let n: u128 = nearest_of(mag, step);
    let mut out: String = String::from_str(
        if v < 0 {
            "-"
        } else {
            ""
        },
    );
    out.append(long_decimal(first_digits(n, k)).as_str());
    out.append(".");
    out.append(last_digits(n, k).as_str());
    out
}

/// White space: the characters with the Unicode property of that name.
pub open spec fn white_space(c: char) -> bool {
    ||| '\u{9}' <= c <= '\u{d}'
    ||| c == ' '
    ||| c == '\u{85}'
    ||| c == '\u{a0}'
    ||| c == '\u{1680}'
    ||| '\u{2000}' <= c <= '\u{200a}'
    ||| c == '\u{2028}'
    ||| c == '\u{2029}'
    ||| c == '\u{202f}'
    ||| c == '\u{205f}'
    ||| c == '\u{3000}'
}

/// `char::is_whitespace` tells whether a character has the Unicode property
/// `White_Space`.
pub assume_specification[ char::is_whitespace ](c: char) -> (b: bool)
    ensures
        b == white_space(c),
;

/// Letters and digits, as `char::is_alphanumeric` tells them.
pub uninterp spec fn alphanumeric(c: char) -> bool;

/// `char::is_alphanumeric` is a function of the character alone. Which
/// characters are letters or digits is left to the Unicode tables behind it.
pub assume_specification[ char::is_alphanumeric ](c: char) -> (b: bool)
    ensures
        b == alphanumeric(c),
;

/// A text without the white space in front.
pub open spec fn trimmed_start(s: Seq<char>) -> Seq<char>
    decreases s.len(),
{
    if s.len() > 0 && white_space(s[0]) {
        trimmed_start(s.skip(1))
    } else {
        s
    }
}

/// A text without the white space behind.
pub open spec fn trimmed_end(s: Seq<char>) -> Seq<char>
    decreases s.len(),
{
    if s.len() > 0 && white_space(s.last()) {
        trimmed_end(s.drop_last())
    } else {
        s
    }
}

/// A text without the white space around it.
pub open spec fn trimmed(s: Seq<char>) -> Seq<char> {
    trimmed_end(trimmed_start(s))
}

/// How many characters of white space stand in front.
fn leading_space(s: &Vec<char>) -> (lo: usize)
    ensures
        lo <= s.len(),
        trimmed_start(s@) == s@.skip(lo as int),
{
    let mut lo: usize = 0;
    proof {
        assert(s@.skip(0) =~= s@);
    }
    while lo < s.len() && s[lo].is_whitespace()
        invariant
            lo <= s.len(),
            trimmed_start(s@) == trimmed_start(s@.skip(lo as int)),
        decreases s.len() - lo,
    {
        proof {
            assert(s@.skip(lo as int).skip(1) =~= s@.skip(lo + 1));
        }
        lo += 1;
    }
    lo
}

/// `s` without the white space around it.
pub fn trim<'a>(s: &'a str) -> (r: &'a str)
    ensures
        r@ == trimmed(s@),
{
    let chars: Vec<char> = chars_of(s);
    let lo: usize = leading_space(&chars);
    let mut hi: usize = chars.len();
    proof {
        assert(s@.subrange(lo as int, hi as int) =~= s@.skip(lo as int));
    }
    while hi > lo && chars[hi - 1].is_whitespace()
        invariant
            chars@ == s@,
            lo <= hi <= chars.len(),
            trimmed_start(s@) == s@.skip(lo as int),
            trimmed(s@) == trimmed_end(s@.subrange(lo as int, hi as int)),
        decreases hi,
    {
        proof {
            assert(s@.subrange(lo as int, hi as int).drop_last() =~= s@.subrange(
                lo as int,
                hi - 1,
            ));
        }
        hi -= 1;
    }
    s.substring_char(lo, hi)
}

/// The first line feed of `s` stands at `i`.
pub open spec fn breaks_at(s: Seq<char>, i: int) -> bool {
    &&& 0 <= i < s.len()
    &&& s[i] == '\n'
    &&& forall|j: int| 0 <= j < i ==> s[j] != '\n'
}

/// A line without the carriage return that belongs to its ending.
pub open spec fn without_return(line: Seq<char>) -> Seq<char> {
    if line.len() > 0 && line.last() == '\r' {
        line.drop_last()
    } else {
        line
    }
}

/// The lines of a text. The last line needs no ending, and an ending at the very
/// end starts no further line.
pub open spec fn lines(s: Seq<char>) -> Seq<Seq<char>>
    decreases s.len(),
{
    if s.len() == 0 {
        Seq::empty()
    } else if exists|i: int| breaks_at(s, i) {
        let i = choose|i: int| breaks_at(s, i);
        seq![without_return(s.take(i))] + lines(s.skip(i + 1))
    } else {
        seq![s]
    }
}

/// The lines of `s`, without their endings.
pub fn lines_of(s: &str) -> (out: Vec<String>)
    ensures
        views(out@) == lines(s@),
{
    let chars: Vec<char> = chars_of(s);
    let mut out: Vec<String> = Vec::new();
    let mut start: usize = 0;
    let mut i: usize = 0;
    proof {
        assert(s@.skip(0) =~= s@);
    }
    while i < chars.len()
        invariant
            chars@ == s@,
            start <= i <= chars.len(),
            lines(s@) == views(out@) + lines(s@.skip(start as int)),
            forall|j: int| start <= j < i ==> s@[j] != '\n',
        decreases chars.len() - i,
    {
        if chars[i] == '\n' {
            let end: usize = if i > start && chars[i - 1] == '\r' {
                i - 1
            } else {
                i
            };
            let line: String = String::from_str(s.substring_char(start, end));
            let ghost before = out@;
            out.push(line);
            proof {
                let rest = s@.skip(start as int);
                let at = i - start;
                assert(breaks_at(rest, at));
                let k = choose|k: int| breaks_at(rest, k);
                assert(k == at) by {
                    if k < at {
                        assert(rest[k] != '\n');
                    } else if at < k {
                        assert(rest[at] != '\n');
                    }
                }
                assert(rest.skip(at + 1) =~= s@.skip(i + 1));
                assert(without_return(rest.take(at)) =~= line@);
                assert(views(out@) =~= views(before).push(line@));
                assert(views(before) + (seq![line@] + lines(s@.skip(i + 1))) =~= views(out@)
                    + lines(s@.skip(i + 1)));
            }
            start = i + 1;
        }
        i += 1;
    }
    proof {
        let rest = s@.skip(start as int);
        assert(!exists|k: int| breaks_at(rest, k)) by {
            if exists|k: int| breaks_at(rest, k) {
                let k = choose|k: int| breaks_at(rest, k);
                assert(rest[k] == s@[start + k]);
            }
        }
    }
    if start < chars.len() {
        let line: String = String::from_str(s.substring_char(start, chars.len()));
        let ghost before = out@;
        out.push(line);
        proof {
            assert(line@ =~= s@.skip(start as int));
            assert(views(out@) =~= views(before) + seq![line@]);
        }
    } else {
        proof {
            assert(views(out@) + Seq::<Seq<char>>::empty() =~= views(out@));
        }
    }
    out
}

/// The first `n` characters are the same in all strings.
pub open spec fn shared_prefix(all: Seq<Seq<char>>, n: int) -> bool {
    forall|k: int|
        0 <= k < all.len() ==> n <= (#[trigger] all[k]).len() && all[k].take(n) == all[0].take(n)
}

/// `p` is the longest common prefix of the strings; of no strings it is empty.
pub open spec fn is_common_prefix(all: Seq<Seq<char>>, p: Seq<char>) -> bool {
    if all.len() == 0 {
        p.len() == 0
    } else {
        &&& p.len() <= all[0].len()
        &&& p == all[0].take(p.len() as int)
        &&& shared_prefix(all, p.len() as int)
        &&& !shared_prefix(all, p.len() as int + 1)
    }
}

/// How many leading characters two texts share, of the first `n` of `a`.
fn shared_len(a: &Vec<char>, b: &Vec<char>, n: usize) -> (r: usize)
    requires
        n <= a.len(),
    ensures
        r <= n,
        r <= b.len(),
        a@.take(r as int) == b@.take(r as int),
        r < n && r < b.len() ==> a@[r as int] != b@[r as int],
{
    let mut i: usize = 0;
    while i < n && i < b.len() && a[i] == b[i]
        invariant
            i <= n <= a.len(),
            i <= b.len(),
            a@.take(i as int) == b@.take(i as int),
        decreases n - i,
    {
        proof {
            assert(a@.take(i + 1) =~= a@.take(i as int).push(a@[i as int]));
            assert(b@.take(i + 1) =~= b@.take(i as int).push(b@[i as int]));
        }
        i += 1;
    }
    i
}

/// The longest common prefix of the strings.
pub fn longest_common_prefix(strings: &Vec<String>) -> (r: String)
    ensures
        is_common_prefix(views(strings@), r@),
{
    if strings.len() == 0 {
        return String::new();
    }
    let first: Vec<char> = chars_of(strings[0].as_str());
    let mut len: usize = first.len();
    let mut k: usize = 1;
    let ghost all = views(strings@);
    proof {
        assert(all.take(1)[0] == first@);
        if shared_prefix(all.take(1), first@.len() as int + 1) {
            assert(first@.len() + 1 <= all.take(1)[0].len());
        }
    }
    while k < strings.len()
        invariant
            1 <= k <= strings.len(),
            all == views(strings@),
            first@ == all[0],
            len <= first.len(),
            shared_prefix(all.take(k as int), len as int),
            !shared_prefix(all.take(k as int), len + 1),
        decreases strings.len() - k,
    {
        let other: Vec<char> = chars_of(strings[k].as_str());
        let shared: usize = shared_len(&first, &other, len);
        proof {
            let now = all.take(k + 1);
            let was = all.take(k as int);
            assert(other@ == all[k as int]);
            assert forall|j: int| 0 <= j < now.len() implies shared <= (#[trigger] now[j]).len()
                && now[j].take(shared as int) == now[0].take(shared as int) by {
                if j < k {
                    assert(now[j] == was[j]);
                    assert(was[j].take(len as int) == was[0].take(len as int));
                    assert(was[j].take(shared as int) =~= was[j].take(len as int).take(
                        shared as int,
                    ));
                    assert(was[0].take(shared as int) =~= was[0].take(len as int).take(
                        shared as int,
                    ));
                }
            }
            if shared_prefix(now, shared + 1) {
                assert(now[k as int].take(shared + 1) == now[0].take(shared + 1));
                assert(now[0].take(shared + 1)[shared as int] == first@[shared as int]);
                assert(now[k as int].take(shared + 1)[shared as int] == other@[shared as int]);
                if shared == len {
                    assert forall|j: int| 0 <= j < was.len() implies len + 1 <= (
                    #[trigger] was[j]).len() && was[j].take(len + 1) == was[0].take(len + 1) by {
                        assert(now[j] == was[j]);
                    }
                    assert(shared_prefix(was, len + 1));
                }
            }
        }
        len = shared;
        k += 1;
    }
    proof {
        assert(all.take(all.len() as int) =~= all);
    }
    String::from_str(strings[0].as_str().substring_char(0, len))
}

/// Three texts in a row: most often a name in its surroundings.
pub fn around(before: &str, name: &str, after: &str) -> (r: String)
    ensures
        r@ == before@ + name@ + after@,
{
    let mut out: String = String::from_str(before);
    out.append(name);
    out.append(after);
    out
}

/// Five texts in a row: most often two names in their surroundings.
pub fn around_two(before: &str, first: &str, between: &str, second: &str, after: &str) -> (r: String)
    ensures
        r@ == before@ + first@ + between@ + second@ + after@,
{
    let mut out: String = String::from_str(before);
    out.append(first);
    out.append(between);
    out.append(second);
    out.append(after);
    out
}

/// The first word of a text: up to the white space behind it.
pub open spec fn first_word_of(s: Seq<char>) -> Seq<char> {
    word_at_front(trimmed_start(s))
}

/// The characters in front of the first white space.
pub open spec fn word_at_front(s: Seq<char>) -> Seq<char>
    decreases s.len(),
{
    if s.len() == 0 || white_space(s[0]) {
        Seq::empty()
    } else {
        seq![s[0]] + word_at_front(s.skip(1))
    }
}

/// The first word of `s`; empty if there is none.
pub fn first_word<'a>(s: &'a str) -> (r: &'a str)
    ensures
        r@ == first_word_of(s@),
{
    let chars: Vec<char> = chars_of(s);
    let lo: usize = leading_space(&chars);
    let mut hi: usize = lo;
    let ghost rest = s@.skip(lo as int);
    proof {
        assert(s@.subrange(lo as int, lo as int) =~= Seq::empty());
        assert(Seq::<char>::empty() + word_at_front(rest) =~= word_at_front(rest));
    }
    while hi < chars.len() && !chars[hi].is_whitespace()
        invariant
            chars@ == s@,
            lo <= hi <= chars.len(),
            rest == s@.skip(lo as int),
            word_at_front(rest) == s@.subrange(lo as int, hi as int) + word_at_front(
                s@.skip(hi as int),
            ),
        decreases chars.len() - hi,
    {
        proof {
            let here = s@.skip(hi as int);
            assert(here.skip(1) =~= s@.skip(hi + 1));
            assert(s@.subrange(lo as int, hi as int) + (seq![here[0]] + word_at_front(here.skip(1)))
                =~= s@.subrange(lo as int, hi + 1) + word_at_front(here.skip(1)));
        }
        hi += 1;
    }
    proof {
        assert(word_at_front(s@.skip(hi as int)) =~= Seq::empty());
        assert(s@.subrange(lo as int, hi as int) + Seq::<char>::empty() =~= s@.subrange(
            lo as int,
            hi as int,
        ));
    }
    s.substring_char(lo, hi)
}

/// The lower-case form of an ASCII character.
pub open spec fn ascii_lower(c: char) -> char {
    if 'A' <= c && c <= 'Z' {
        (c as u32 + 32) as char
    } else {
        c
    }
}

/// The texts are equal but for the case of ASCII letters.
pub open spec fn equal_ignoring_case(a: Seq<char>, b: Seq<char>) -> bool {
    a.len() == b.len() && forall|i: int|
        0 <= i < a.len() ==> ascii_lower(#[trigger] a[i]) == ascii_lower(b[i])
}

fn lowered(c: char) -> (r: u32)
    ensures
        r == ascii_lower(c) as u32,
{
    if 'A' <= c && c <= 'Z' {
        c as u32 + 32
    } else {
        c as u32
    }
}

/// Whether the texts are equal but for the case of ASCII letters.
pub fn same_ignoring_case(a: &str, b: &str) -> (r: bool)
    ensures
        r == equal_ignoring_case(a@, b@),
{
    let x: Vec<char> = chars_of(a);
    let y: Vec<char> = chars_of(b);
    if x.len() != y.len() {
        return false;
    }
    let mut i: usize = 0;
    while i < x.len()
        invariant
            x@ == a@,
            y@ == b@,
            x.len() == y.len(),
            i <= x.len(),
            forall|j: int| 0 <= j < i ==> ascii_lower(#[trigger] a@[j]) == ascii_lower(b@[j]),
        decreases x.len() - i,
    {
        if lowered(x[i]) != lowered(y[i]) {
            proof {
                assert(ascii_lower(a@[i as int]) != ascii_lower(b@[i as int]));
            }
            return false;
        }
        i += 1;
    }
    true
}

// ---------------------------------------------------------------- reading back

/// The number that a text of decimal digits stands for.
pub open spec fn number_of(s: Seq<char>) -> int
    decreases s.len(),
{
    if s.len() == 0 {
        0
    } else {
        10 * number_of(s.drop_last()) + (s.last() as int - '0' as int)
    }
}

/// The text is made of decimal digits.
pub open spec fn is_digits(s: Seq<char>) -> bool {
    forall|i: int| 0 <= i < s.len() ==> '0' <= #[trigger] s[i] <= '9'
}

proof fn lemma_pushed_digit(s: Seq<char>, d: nat)
    requires
        d < 10,
        is_digits(s),
    ensures
        number_of(s.push(digit_char(d))) == 10 * number_of(s) + d,
        is_digits(s.push(digit_char(d))),
        digit_char(d) as int == '0' as int + d,
{
    assert(s.push(digit_char(d)).drop_last() =~= s);
}

/// A written number reads back as itself: its digits stand for it, and the first is no zero
/// unless it is the number zero.
pub proof fn law_decimals_read_back(n: nat)
    ensures
        number_of(decimal_of(n)) == n,
        is_digits(decimal_of(n)),
        decimal_of(n).len() > 0,
        n > 0 ==> decimal_of(n)[0] != '0',
        n == 0 ==> decimal_of(n) == "0"@,
        n < 10 ==> decimal_of(n).len() == 1,
    decreases n,
{
    reveal_strlit("0");
    if n < 10 {
        lemma_pushed_digit(Seq::empty(), n);
        assert(decimal_of(n) =~= Seq::<char>::empty().push(digit_char(n)));
        assert(number_of(Seq::<char>::empty()) == 0);
        assert(n == 0 ==> decimal_of(n) =~= "0"@);
    } else {
        law_decimals_read_back(n / 10);
        lemma_pushed_digit(decimal_of(n / 10), n % 10);
    }
}

/// Rounding goes to the nearest step, and halfway to the even one.
pub proof fn law_halfway_goes_to_the_even(v: nat, step: nat, k: nat)
    requires
        step > 0,
    ensures
        nearest(k * step, step) == k,
        v == k * step && step % 2 == 0 ==> nearest(v + step / 2, step) == (if k % 2 == 0 {
            k
        } else {
            k + 1
        }),
{
    let w = k * step;
    assert(w / step == k && w % step == 0) by (nonlinear_arith)
        requires
            w == k * step,
            step > 0,
    ;
    if step % 2 == 0 {
        let h = step / 2;
        assert((w + h) / step == k && (w + h) % step == h) by (nonlinear_arith)
            requires
                w == k * step,
                step > 0,
                0 <= h < step,
        ;
    }
}

/// With its point taken out, a number with fixed places reads back as its count.
pub proof fn law_fixed_places_read_back(count: nat)
    ensures
        fixed_of(count, Places::Zero) == decimal_of(count),
        ({
            let s = fixed_of(count, Places::One);
            let at = s.len() - 2;
            s.len() >= 3 && s[at] == '.' && number_of(s.remove(at)) == count
        }),
        ({
            let s = fixed_of(count, Places::Two);
            let at = s.len() - 3;
            s.len() >= 4 && s[at] == '.' && number_of(s.remove(at)) == count
        }),
{
    reveal_strlit(".");
    let (a, b) = (decimal_of(count / 10), decimal_of(count % 10));
    law_decimals_read_back(count / 10);
    law_decimals_read_back(count % 10);
    lemma_pushed_digit(a, count % 10);
    let one = fixed_of(count, Places::One);
    assert(b =~= seq![digit_char(count % 10)]);
    assert(one.remove(one.len() - 2) =~= a.push(digit_char(count % 10)));
    let (h, t) = (decimal_of(count / 100), (count % 100) / 10);
    law_decimals_read_back(count / 100);
    law_decimals_read_back(t);
    lemma_pushed_digit(h, t);
    lemma_pushed_digit(h.push(digit_char(t)), count % 10);
    let two = fixed_of(count, Places::Two);
    assert(decimal_of(t) =~= seq![digit_char(t)]);
    assert(two.remove(two.len() - 3) =~= h.push(digit_char(t)).push(digit_char(count % 10)));
}

/// A signed number shows its sign, and the places of how large it is, whatever the sign.
pub proof fn law_sign_stands_in_front(v: nat, step: nat, places: Places)
    ensures
        signed_of(v as int, step, places) == "+"@ + fixed_of(nearest(v, step), places),
        v > 0 ==> signed_of(-v, step, places) == "-"@ + fixed_of(nearest(v, step), places),
{
}

/// What stands before and behind a point reads back as the number: there are `k` digits
/// behind it.
pub proof fn law_point_reads_back(n: nat, k: nat)
    ensures
        behind_point(n, k).len() == k,
        is_digits(behind_point(n, k)),
        before_point(n, k) * vstd::arithmetic::power::pow(10, k) + number_of(behind_point(n, k))
            == n,
    decreases k,
{
    reveal(vstd::arithmetic::power::pow);
    if k == 0 {
        assert(number_of(behind_point(n, 0)) == 0);
        assert(n * 1 == n);
    } else {
        let j = (k - 1) as nat;
        law_point_reads_back(n / 10, j);
        lemma_pushed_digit(behind_point(n / 10, j), n % 10);
        let (b, p) = (before_point(n / 10, j) as int, vstd::arithmetic::power::pow(10, j));
        assert(b * (10 * p) == 10 * (b * p)) by (nonlinear_arith);
    }
}

/// A number with a point is its sign, what stands before it, and what stands behind it, of the
/// number rounded to its places.
pub proof fn law_point_number(v: nat, step: nat, k: nat)
    ensures
        ({
            let n = nearest(v, step);
            &&& point_of(v as int, step, k) == decimal_of(before_point(n, k)) + "."@ + behind_point(
                n,
                k,
            )
            &&& v > 0 ==> point_of(-v, step, k) == "-"@ + point_of(v as int, step, k)
        }),
{
    reveal_strlit("");
    let n = nearest(v, step);
    let rest = decimal_of(before_point(n, k)) + "."@ + behind_point(n, k);
    assert(""@ + decimal_of(before_point(n, k)) =~= decimal_of(before_point(n, k)));
    assert("-"@ + decimal_of(before_point(n, k)) + "."@ + behind_point(n, k) =~= "-"@ + rest);
}

// ---------------------------------------------------------------- pieces of text

/// A pattern is found exactly where the text is something, the pattern, and something.
pub proof fn law_infix_stands_within(hay: Seq<char>, a: Seq<char>, pat: Seq<char>, b: Seq<char>)
    ensures
        hay == a + pat + b ==> is_infix(hay, pat),
        is_infix(hay, pat) ==> pat.len() <= hay.len(),
        is_infix(hay, hay),
        pat.len() > hay.len() ==> !is_infix(hay, pat),
{
    if hay == a + pat + b {
        assert(hay.subrange(a.len() as int, (a.len() + pat.len()) as int) =~= pat);
        assert(occurs_at(hay, pat, a.len() as int));
    }
    assert(hay.subrange(0, hay.len() as int) =~= hay);
    assert(occurs_at(hay, hay, 0));
}

/// A found pattern has a place, before and behind which the rest of the text stands.
pub proof fn law_infix_has_a_place(hay: Seq<char>, pat: Seq<char>) -> (at: int)
    requires
        is_infix(hay, pat),
    ensures
        0 <= at <= hay.len() - pat.len(),
        hay == hay.take(at) + pat + hay.skip(at + pat.len()),
{
    let at = choose|at: int| occurs_at(hay, pat, at);
    assert(hay =~= hay.take(at) + hay.subrange(at, at + pat.len()) + hay.skip(at + pat.len()));
    at
}

/// Joined parts stand in order with the separator between them, and none before the first or
/// behind the last.
pub proof fn law_parts_are_joined(parts: Seq<Seq<char>>, part: Seq<char>, sep: Seq<char>)
    ensures
        parts.len() > 0 ==> joined(parts.push(part), sep) == joined(parts, sep) + sep + part,
        joined(seq![part], sep) == part,
        joined(Seq::<Seq<char>>::empty(), sep).len() == 0,
{
    assert(parts.push(part).drop_last() =~= parts);
}

/// Texts are ordered by the first place at which they differ, and a text comes before a longer
/// one that starts with it.
pub proof fn law_first_difference_decides(a: Seq<char>, b: Seq<char>, n: int)
    requires
        0 <= n <= a.len(),
        n <= b.len(),
        a.take(n) == b.take(n),
    ensures
        n < a.len() && n < b.len() && a[n] != b[n] ==> (lex_le(a, b) <==> (a[n] as u32) < (b[n] as u32)),
        n == a.len() ==> lex_le(a, b),
        n == b.len() && n < a.len() ==> !lex_le(a, b),
    decreases n,
{
    if n > 0 {
        assert(a.take(n)[0] == a[0] && b.take(n)[0] == b[0]);
        let (x, y) = (a.drop_first(), b.drop_first());
        assert forall|i: int| 0 <= i < n - 1 implies #[trigger] x.take(n - 1)[i] == y.take(
            n - 1,
        )[i] by {
            assert(a.take(n)[i + 1] == a[i + 1] && b.take(n)[i + 1] == b[i + 1]);
            assert(x[i] == a[i + 1] && y[i] == b[i + 1]);
        }
        assert(x.take(n - 1) =~= y.take(n - 1));
        law_first_difference_decides(x, y, n - 1);
        if n < a.len() && n < b.len() {
            assert(x[n - 1] == a[n] && y[n - 1] == b[n]);
        }
    }
}

/// Trimming takes white space off both ends and nothing else: what is left starts and ends
/// with something, and what was taken off is white.
pub proof fn law_trimming(s: Seq<char>)
    ensures
        trimmed(s).len() > 0 ==> !white_space(trimmed(s)[0]) && !white_space(trimmed(s).last()),
        exists|i: int, j: int|
            #![trigger s.subrange(i, j)]
            0 <= i <= j <= s.len() && trimmed(s) == s.subrange(i, j) && (forall|k: int|
                0 <= k < i || j <= k < s.len() ==> white_space(#[trigger] s[k])),
{
    let i = lemma_trimmed_start(s);
    let t = trimmed_start(s);
    let j = lemma_trimmed_end(t);
    assert(trimmed(s) =~= s.subrange(i, i + j));
    assert forall|k: int| 0 <= k < i || i + j <= k < s.len() implies white_space(#[trigger] s[k]) by {
        if k >= i + j {
            assert(t[k - i] == s[k]);
        }
    }
    if trimmed(s).len() > 0 {
        assert(trimmed(s)[0] == t[0]);
    }
}

proof fn lemma_trimmed_start(s: Seq<char>) -> (i: int)
    ensures
        0 <= i <= s.len(),
        trimmed_start(s) == s.skip(i),
        forall|k: int| 0 <= k < i ==> white_space(#[trigger] s[k]),
        i < s.len() ==> !white_space(s[i]),
    decreases s.len(),
{
    if s.len() > 0 && white_space(s[0]) {
        let i = lemma_trimmed_start(s.skip(1));
        assert(s.skip(1).skip(i) =~= s.skip(i + 1));
        assert forall|k: int| 0 <= k < i + 1 implies white_space(#[trigger] s[k]) by {
            if k > 0 {
                assert(s.skip(1)[k - 1] == s[k]);
            }
        }
        if i + 1 < s.len() {
            assert(s.skip(1)[i] == s[i + 1]);
        }
        i + 1
    } else {
        assert(s.skip(0) =~= s);
        0
    }
}

proof fn lemma_trimmed_end(s: Seq<char>) -> (j: int)
    ensures
        0 <= j <= s.len(),
        trimmed_end(s) == s.take(j),
        forall|k: int| j <= k < s.len() ==> white_space(#[trigger] s[k]),
        j > 0 ==> !white_space(s[j - 1]),
    decreases s.len(),
{
    if s.len() > 0 && white_space(s.last()) {
        let j = lemma_trimmed_end(s.drop_last());
        assert(s.drop_last().take(j) =~= s.take(j));
        assert forall|k: int| j <= k < s.len() implies white_space(#[trigger] s[k]) by {
            if k < s.len() - 1 {
                assert(s.drop_last()[k] == s[k]);
            }
        }
        if j > 0 {
            assert(s.drop_last()[j - 1] == s[j - 1]);
        }
        j
    } else {
        assert(s.take(s.len() as int) =~= s);
        s.len() as int
    }
}

/// The first word is what stands before the next white space, with none in it.
pub proof fn law_word_ends_at_white_space(s: Seq<char>)
    ensures
        ({
            let n = word_at_front(s).len();
            &&& n <= s.len()
            &&& word_at_front(s) == s.take(n as int)
            &&& forall|k: int| 0 <= k < n ==> !white_space(#[trigger] s[k])
            &&& n < s.len() ==> white_space(s[n as int])
        }),
    decreases s.len(),
{
    if s.len() > 0 && !white_space(s[0]) {
        let rest = s.skip(1);
        law_word_ends_at_white_space(rest);
        let n = word_at_front(s).len();
        assert(word_at_front(s) =~= s.take(n as int)) by {
            assert forall|k: int| 0 < k < n implies #[trigger] word_at_front(s)[k] == s[k] by {
                assert(word_at_front(rest)[k - 1] == rest.take(n - 1)[k - 1]);
            }
        }
        assert forall|k: int| 0 <= k < n implies !white_space(#[trigger] s[k]) by {
            if k > 0 {
                assert(rest[k - 1] == s[k]);
            }
        }
        if n < s.len() {
            assert(rest[n - 1] == s[n as int]);
        }
    } else {
        assert(word_at_front(s) =~= s.take(0));
    }
}

/// Text is split into lines at its breaks, each without its break and without a return before
/// that; what stands behind the last break is a line only where there is something.
pub proof fn law_lines_are_split_at_breaks(line: Seq<char>, rest: Seq<char>)
    requires
        forall|i: int| 0 <= i < line.len() ==> #[trigger] line[i] != '\n',
    ensures
        lines(line + seq!['\n'] + rest) == seq![without_return(line)] + lines(rest),
        line.len() > 0 ==> lines(line) == seq![line],
        lines(Seq::<char>::empty()).len() == 0,
        without_return(line.push('\r')) == line,
        line.len() > 0 && line.last() != '\r' ==> without_return(line) == line,
{
    let s = line + seq!['\n'] + rest;
    assert(s[line.len() as int] == '\n');
    assert forall|j: int| 0 <= j < line.len() implies s[j] != '\n' by {
        assert(s[j] == line[j]);
    }
    assert(breaks_at(s, line.len() as int));
    let i = choose|i: int| breaks_at(s, i);
    assert(i == line.len());
    assert(s.take(i) =~= line);
    assert(s.skip(i + 1) =~= rest);
    assert(line.push('\r').drop_last() =~= line);
}

/// Only the capital letters of ASCII are lowered, each to its own small letter.
pub proof fn law_ascii_is_lowered(c: char)
    ensures
        'A' <= c <= 'Z' ==> ascii_lower(c) as u32 == c as u32 + 32 && 'a' <= ascii_lower(c) <= 'z',
        !('A' <= c <= 'Z') ==> ascii_lower(c) == c,
        ascii_lower(ascii_lower(c)) == ascii_lower(c),
{
}

} // verus!
