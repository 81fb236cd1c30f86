//! Character-level text handling: whitespace, trimming, line and token
//! splitting, decimal parsing and printing.
use vstd::prelude::*;

verus! {

/// Unicode `White_Space` characters, the set that `char::is_whitespace` accepts.
pub open spec fn is_ws(c: char) -> bool {
    let u = c as u32;
    ||| u == 0x09 || u == 0x0A || u == 0x0B || u == 0x0C || u == 0x0D || u == 0x20
    ||| u == 0x85 || u == 0xA0 || u == 0x1680
    ||| (0x2000 <= u && u <= 0x200A)
    ||| u == 0x2028 || u == 0x2029 || u == 0x202F || u == 0x205F || u == 0x3000
}

pub fn is_ws_char(c: char) -> (r: bool)
    ensures
        r == is_ws(c),
{
    let u = c as u32;
    u == 0x09 || u == 0x0A || u == 0x0B || u == 0x0C || u == 0x0D || u == 0x20 || u == 0x85
        || u == 0xA0 || u == 0x1680 || (0x2000 <= u && u <= 0x200A) || u == 0x2028 || u
        == 0x2029 || u == 0x202F || u == 0x205F || u == 0x3000
}

/// The sequence without its leading whitespace.
pub open spec fn ltrim(s: Seq<char>) -> Seq<char>
    decreases s.len(),
{
    if s.len() > 0 && is_ws(s[0]) {
        ltrim(s.drop_first())
    } else {
        s
    }
}

/// The sequence without its trailing whitespace.
pub open spec fn rtrim(s: Seq<char>) -> Seq<char>
    decreases s.len(),
{
    if s.len() > 0 && is_ws(s.last()) {
        rtrim(s.drop_last())
    } else {
        s
    }
}

/// `str::trim`: the sequence without leading and trailing whitespace.
pub open spec fn trim(s: Seq<char>) -> Seq<char> {
    rtrim(ltrim(s))
}

/// Index of the first `c` in `s`, or -1 when `s` holds none.
pub open spec fn find_first(s: Seq<char>, c: char) -> int
    decreases s.len(),
{
    if s.len() == 0 {
        -1
    } else if s[0] == c {
        0
    } else {
        let r = find_first(s.drop_first(), c);
        if r < 0 {
            -1
        } else {
            r + 1
        }
    }
}

/// A line without the `'\r'` of a `"\r\n"` ending.
pub open spec fn strip_cr(l: Seq<char>) -> Seq<char> {
    if l.len() > 0 && l.last() == '\r' {
        l.drop_last()
    } else {
        l
    }
}

/// `str::lines`: split at `'\n'`, drop a `'\r'` before it, and no empty last
/// line after a final `'\n'`.
pub open spec fn lines(s: Seq<char>) -> Seq<Seq<char>>
    decreases s.len(),
{
    if s.len() == 0 {
        seq![]
    } else {
        let i = find_first(s, '\n');
        if i < 0 {
            seq![s]
        } else {
            proof {
                lemma_find_first_bounds(s, '\n');
            }
            seq![strip_cr(s.take(i))] + lines(s.skip(i + 1))
        }
    }
}

/// Number of leading characters of `s` that are not whitespace.
pub open spec fn token_len(s: Seq<char>) -> nat
    decreases s.len(),
{
    if s.len() == 0 || is_ws(s[0]) {
        0
    } else {
        1 + token_len(s.drop_first())
    }
}

/// `str::split_whitespace`: the maximal runs of non-whitespace characters.
pub open spec fn tokens(s: Seq<char>) -> Seq<Seq<char>>
    decreases s.len(),
{
    if s.len() == 0 {
        seq![]
    } else if is_ws(s[0]) {
        tokens(s.drop_first())
    } else {
        let k = token_len(s) as int;
        proof {
            lemma_token_len_bounds(s);
        }
        seq![s.take(k)] + tokens(s.skip(k))
    }
}

/// Where `find_first` points: at the first `c`, or nowhere when none is held.
pub proof fn lemma_find_first_bounds(s: Seq<char>, c: char)
    ensures
        -1 <= find_first(s, c) < s.len(),
        find_first(s, c) >= 0 ==> s[find_first(s, c)] == c,
        forall|j: int| 0 <= j < s.len() && (find_first(s, c) < 0 || j < find_first(s, c)) ==> s[j]
            != c,
    decreases s.len(),
{
    if s.len() > 0 && s[0] != c {
        lemma_find_first_bounds(s.drop_first(), c);
        assert forall|j: int|
            0 <= j < s.len() && (find_first(s, c) < 0 || j < find_first(s, c)) implies s[j]
            != c by {
            if j > 0 {
                assert(s[j] == s.drop_first()[j - 1]);
            }
        }
    }
}

/// A token is the longest prefix without whitespace.
pub proof fn lemma_token_len_bounds(s: Seq<char>)
    ensures
        token_len(s) <= s.len(),
        s.len() > 0 && !is_ws(s[0]) ==> token_len(s) >= 1,
        forall|j: int| 0 <= j < token_len(s) ==> !is_ws(s[j]),
        token_len(s) < s.len() ==> is_ws(s[token_len(s) as int]),
    decreases s.len(),
{
    if s.len() > 0 && !is_ws(s[0]) {
        lemma_token_len_bounds(s.drop_first());
        assert forall|j: int| 0 <= j < token_len(s) implies !is_ws(s[j]) by {
            if j > 0 {
                assert(s[j] == s.drop_first()[j - 1]);
            }
        }
        if token_len(s) < s.len() {
            assert(s[token_len(s) as int] == s.drop_first()[token_len(s.drop_first()) as int]);
        }
    }
}

/// The characters of a string slice, in order.
pub fn chars_of(s: &str) -> (r: Vec<char>)
    ensures
        r@ == s@,
{
    let n = s.unicode_len();
    let mut out: Vec<char> = Vec::new();
    let mut i: usize = 0;
    while i < n
        invariant
            n == s@.len(),
            i <= n,
            out@ == s@.take(i as int),
        decreases n - i,
    {
        let c = s.get_char(i);
        out.push(c);
        assert(out@ =~= s@.take(i + 1));
        i = i + 1;
    }
    assert(out@ =~= s@);
    out
}

/// Appends one character to a `String` (`String::push`).
#[verifier::external_body]
pub(crate) fn push_char(s: &mut String, c: char)
    ensures
        final(s)@ == old(s)@.push(c),
{
    s.push(c);
}

/// Appends a string slice to a `String` (`String::push_str`).
#[verifier::external_body]
pub(crate) fn push_str(s: &mut String, t: &str)
    ensures
        final(s)@ == old(s)@ + t@,
{
    s.push_str(t);
}

/// Removes the last character of a `String`, if any (`String::pop`).
#[verifier::external_body]
pub(crate) fn pop_char(s: &mut String)
    ensures
        final(s)@ == if old(s)@.len() > 0 {
            old(s)@.drop_last()
        } else {
            old(s)@
        },
{
    s.pop();
}

/// The `String` holding `cs[lo..hi]`.
pub fn string_of_range(cs: &Vec<char>, lo: usize, hi: usize) -> (r: String)
    requires
        lo <= hi <= cs@.len(),
    ensures
        r@ == cs@.subrange(lo as int, hi as int),
{
    let mut out = String::new();
    let mut i = lo;
    while i < hi
        invariant
            lo <= i <= hi <= cs@.len(),
            out@ == cs@.subrange(lo as int, i as int),
        decreases hi - i,
    {
        push_char(&mut out, cs[i]);
        assert(out@ =~= cs@.subrange(lo as int, i + 1));
        i = i + 1;
    }
    out
}

/// Bounds of `trim(cs[lo..hi])` inside `cs`.
pub fn trim_range(cs: &Vec<char>, lo: usize, hi: usize) -> (r: (usize, usize))
    requires
        lo <= hi <= cs@.len(),
    ensures
        lo <= r.0 <= r.1 <= hi,
        cs@.subrange(r.0 as int, r.1 as int) == trim(cs@.subrange(lo as int, hi as int)),
{
    let mut a = lo;
    while a < hi && is_ws_char(cs[a])
        invariant
            lo <= a <= hi <= cs@.len(),
            ltrim(cs@.subrange(lo as int, hi as int)) == ltrim(cs@.subrange(a as int, hi as int)),
        decreases hi - a,
    {
        assert(cs@.subrange(a as int, hi as int).drop_first() =~= cs@.subrange(a + 1, hi as int));
        a = a + 1;
    }
    assert(ltrim(cs@.subrange(a as int, hi as int)) == cs@.subrange(a as int, hi as int));
    let mut b = hi;
    while b > a && is_ws_char(cs[b - 1])
        invariant
            lo <= a <= b <= hi <= cs@.len(),
            rtrim(cs@.subrange(a as int, hi as int)) == rtrim(cs@.subrange(a as int, b as int)),
        decreases b - a,
    {
        assert(cs@.subrange(a as int, b as int).drop_last() =~= cs@.subrange(a as int, b - 1));
        b = b - 1;
    }
    (a, b)
}

/// First index of `c` in `cs[lo..hi]`, or `hi` when there is none.
pub fn find_char(cs: &Vec<char>, lo: usize, hi: usize, c: char) -> (r: usize)
    requires
        lo <= hi <= cs@.len(),
    ensures
        lo <= r <= hi,
        r < hi ==> find_first(cs@.subrange(lo as int, hi as int), c) == r - lo,
        r == hi ==> find_first(cs@.subrange(lo as int, hi as int), c) == -1,
{
    let mut i = lo;
    while i < hi && cs[i] != c
        invariant
            lo <= i <= hi <= cs@.len(),
            find_first(cs@.subrange(lo as int, hi as int), c) == if find_first(
                cs@.subrange(i as int, hi as int),
                c,
            ) < 0 {
                -1
            } else {
                find_first(cs@.subrange(i as int, hi as int), c) + (i - lo)
            },
        decreases hi - i,
    {
        assert(cs@.subrange(i as int, hi as int).drop_first() =~= cs@.subrange(i + 1, hi as int));
        i = i + 1;
    }
    i
}

/// Ranges of the whitespace-separated tokens of `cs[lo..hi]`, in order.
pub fn token_ranges(cs: &Vec<char>, lo: usize, hi: usize) -> (r: Vec<(usize, usize)>)
    requires
        lo <= hi <= cs@.len(),
    ensures
        r@.len() == tokens(cs@.subrange(lo as int, hi as int)).len(),
        forall|k: int|
            0 <= k < r@.len() ==> {
                &&& lo <= (#[trigger] r@[k]).0 <= r@[k].1 <= hi
                &&& cs@.subrange(r@[k].0 as int, r@[k].1 as int) == tokens(
                    cs@.subrange(lo as int, hi as int),
                )[k]
            },
{
    let ghost whole = tokens(cs@.subrange(lo as int, hi as int));
    let mut out: Vec<(usize, usize)> = Vec::new();
    let mut i = lo;
    while i < hi
        invariant
            lo <= i <= hi <= cs@.len(),
            whole == tokens(cs@.subrange(lo as int, hi as int)),
            out@.len() <= whole.len(),
            whole == whole.take(out@.len() as int) + tokens(cs@.subrange(i as int, hi as int)),
            forall|k: int|
                0 <= k < out@.len() ==> {
                    &&& lo <= (#[trigger] out@[k]).0 <= out@[k].1 <= i
                    &&& cs@.subrange(out@[k].0 as int, out@[k].1 as int) == whole[k]
                },
        decreases hi - i,
    {
        let ghost rest = cs@.subrange(i as int, hi as int);
        if is_ws_char(cs[i]) {
            assert(rest.drop_first() =~= cs@.subrange(i + 1, hi as int));
            i = i + 1;
        } else {
            let mut j = i;
            while j < hi && !is_ws_char(cs[j])
                invariant
                    i <= j <= hi <= cs@.len(),
                    rest == cs@.subrange(i as int, hi as int),
                    forall|t: int| i <= t < j ==> !is_ws(cs@[t]),
                decreases hi - j,
            {
                j = j + 1;
            }
            proof {
                lemma_token_len_bounds(rest);
                lemma_token_len_is(rest, (j - i) as int);
                assert(rest.take(j - i) =~= cs@.subrange(i as int, j as int));
                assert(rest.skip(j - i) =~= cs@.subrange(j as int, hi as int));
                let n = out@.len() as int;
                assert(tokens(rest) == seq![rest.take(j - i)] + tokens(rest.skip(j - i)));
                assert(whole.take(n + 1) =~= whole.take(n) + seq![rest.take(j - i)]);
                assert(whole =~= whole.take(n + 1) + tokens(cs@.subrange(j as int, hi as int)));
            }
            out.push((i, j));
            i = j;
        }
    }
    proof {
        assert(cs@.subrange(i as int, hi as int).len() == 0);
        assert(whole.take(out@.len() as int) =~= whole);
    }
    out
}

proof fn lemma_token_len_is(s: Seq<char>, n: int)
    requires
        0 <= n <= s.len(),
        forall|t: int| 0 <= t < n ==> !is_ws(s[t]),
        n == s.len() || is_ws(s[n]),
    ensures
        token_len(s) == n,
    decreases n,
{
    if n > 0 {
        let d = s.drop_first();
        assert forall|t: int| 0 <= t < n - 1 implies !is_ws(d[t]) by {
            assert(d[t] == s[t + 1]);
        }
        if n < s.len() {
            assert(d[n - 1] == s[n]);
        }
        lemma_token_len_is(d, n - 1);
    }
}

/// Value of a decimal digit character.
pub open spec fn digit_value(c: char) -> int {
    c as int - '0' as int
}

pub open spec fn is_digit(c: char) -> bool {
    48 <= c as int <= 57
}

fn is_digit_char(c: char) -> (r: bool)
    ensures
        r == is_digit(c),
{
    '0' <= c && c <= '9'
}

/// The number that a string of decimal digits denotes.
pub open spec fn digits_value(s: Seq<char>) -> nat
    decreases s.len(),
{
    if s.len() == 0 {
        0
    } else {
        (digits_value(s.drop_last()) * 10 + digit_value(s.last())) as nat
    }
}

/// A leading `'+'` removed, if there is one.
pub open spec fn strip_plus(s: Seq<char>) -> Seq<char> {
    if s.len() > 0 && s[0] == '+' {
        s.drop_first()
    } else {
        s
    }
}

pub open spec fn all_digits(d: Seq<char>) -> bool {
    forall|i: int| 0 <= i < d.len() ==> is_digit(#[trigger] d[i])
}

/// `str::parse::<u64>`: an optional `'+'`, then one or more decimal digits,
/// of a value that fits in `u64`.
pub open spec fn parse_u64_spec(s: Seq<char>) -> Option<u64> {
    let d = strip_plus(s);
    if d.len() > 0 && all_digits(d) && digits_value(d) <= u64::MAX {
        Some(digits_value(d) as u64)
    } else {
        None
    }
}

/// Parses `cs[lo..hi]` as `str::parse::<u64>` does.
pub fn parse_u64_range(cs: &Vec<char>, lo: usize, hi: usize) -> (r: Option<u64>)
    requires
        lo <= hi <= cs@.len(),
    ensures
        r == parse_u64_spec(cs@.subrange(lo as int, hi as int)),
{
    let ghost s = cs@.subrange(lo as int, hi as int);
    let mut start = lo;
    if lo < hi && cs[lo] == '+' {
        start = lo + 1;
    }
    let ghost d = cs@.subrange(start as int, hi as int);
    proof {
        if lo < hi && cs@[lo as int] == '+' {
            assert(s.drop_first() =~= d);
        } else {
            assert(s =~= d);
        }
    }
    if start == hi {
        return None;
    }
    let mut value: u64 = 0;
    let mut overflow = false;
    let mut i = start;
    while i < hi
        invariant
            lo <= start <= i <= hi <= cs@.len(),
            d == cs@.subrange(start as int, hi as int),
            s == cs@.subrange(lo as int, hi as int),
            strip_plus(s) == d,
            forall|t: int| start <= t < i ==> is_digit(#[trigger] cs@[t]),
            overflow == (digits_value(cs@.subrange(start as int, i as int)) > u64::MAX),
            !overflow ==> value == digits_value(cs@.subrange(start as int, i as int)),
        decreases hi - i,
    {
        let c = cs[i];
        if !is_digit_char(c) {
            proof {
                assert(d[i - start] == c);
                assert(!is_digit(d[i - start]));
                assert(!all_digits(d));
                assert(strip_plus(s) == d);
            }
            return None;
        }
        let dv = (c as u32 - 48) as u64;
        proof {
            let p = cs@.subrange(start as int, i + 1);
            assert(p.drop_last() =~= cs@.subrange(start as int, i as int));
            assert(p.last() == c);
            assert(digits_value(p) == digits_value(p.drop_last()) * 10 + digit_value(c));
        }
        if !overflow {
            if value <= (u64::MAX - dv) / 10 {
                proof {
                    assert(value * 10 <= u64::MAX - dv) by (nonlinear_arith)
                        requires
                            value <= (u64::MAX - dv) / 10,
                            dv <= 9,
                    ;
                }
                value = value * 10 + dv;
            } else {
                proof {
                    assert(value * 10 + dv > u64::MAX) by (nonlinear_arith)
                        requires
                            value > (u64::MAX - dv) / 10,
                            dv <= 9,
                    ;
                }
                overflow = true;
            }
        } else {
            proof {
                let q = digits_value(cs@.subrange(start as int, i as int));
                assert(q * 10 + dv > u64::MAX) by (nonlinear_arith)
                    requires
                        q > u64::MAX,
                ;
            }
        }
        i = i + 1;
    }
    proof {
        assert(cs@.subrange(start as int, hi as int) =~= d);
        assert forall|t: int| 0 <= t < d.len() implies is_digit(#[trigger] d[t]) by {
            assert(d[t] == cs@[start + t]);
        }
        assert(all_digits(d));
    }
    if overflow {
        None
    } else {
        Some(value)
    }
}

/// The decimal digit character for `d < 10`.
pub open spec fn digit_char(d: nat) -> char {
    ('0' as u32 + d) as char
}

/// Decimal representation of a natural number, without leading zeros.
pub open spec fn dec(n: nat) -> Seq<char>
    decreases n,
{
    if n < 10 {
        seq![digit_char(n)]
    } else {
        dec(n / 10).push(digit_char(n % 10))
    }
}

/// Decimal representation of a signed integer, as `Display` writes it.
pub open spec fn dec_int(v: int) -> Seq<char> {
    if v < 0 {
        seq!['-'] + dec((-v) as nat)
    } else {
        dec(v as nat)
    }
}

fn digit_to_char(d: u64) -> (c: char)
    requires
        d < 10,
    ensures
        c == digit_char(d as nat),
{
    let v: u8 = 48u8 + (d as u8);
    v as char
}

/// Appends the decimal form of `n`.
pub fn push_decimal(out: &mut String, n: u64)
    ensures
        final(out)@ == old(out)@ + dec(n as nat),
    decreases n,
{
    if n >= 10 {
        push_decimal(out, n / 10);
    }
    let c = digit_to_char(n % 10);
    push_char(out, c);
    proof {
        if n >= 10 {
            assert(old(out)@ + dec(n as nat) =~= old(out)@ + dec((n / 10) as nat) + seq![c]);
        } else {
            assert(old(out)@ + dec(n as nat) =~= old(out)@ + seq![c]);
        }
    }
}

/// Appends the decimal form of a signed value.
pub fn push_decimal_i64(out: &mut String, v: i64)
    ensures
        final(out)@ == old(out)@ + dec_int(v as int),
{
    if v < 0 {
        push_char(out, '-');
        let m: u64 = (-(v as i128)) as u64;
        push_decimal(out, m);
        assert(out@ =~= old(out)@ + dec_int(v as int));
    } else {
        push_decimal(out, v as u64);
    }
}

} // verus!
