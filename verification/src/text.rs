//! Character-level text utilities with exact specifications: whitespace,
//! splitting, trimming, unsigned number parsing and decimal rendering.

use vstd::prelude::*;

verus! {

/// Appends one character to a string.
#[verifier::external_body]
pub(crate) fn push_char(s: &mut String, c: char)
    ensures
        final(s)@ == old(s)@.push(c),
{
    s.push(c)
}

/// Appends a string slice to a string.
#[verifier::external_body]
pub(crate) fn push_str(s: &mut String, t: &str)
    ensures
        final(s)@ == old(s)@ + t@,
{
    s.push_str(t)
}

/// The characters of a string slice, in order.
pub fn chars_of(s: &str) -> (v: Vec<char>)
    ensures
        v@ == s@,
{
    let mut v: Vec<char> = Vec::new();
    for c in it: s.chars()
        invariant
            v@ == it.seq().take(it.index() as int),
    {
        v.push(c);
    }
    v
}

/// A string holding exactly the given characters.
pub fn string_of(v: &Vec<char>) -> (s: String)
    ensures
        s@ == v@,
{
    let mut s = String::new();
    let mut i: usize = 0;
    while i < v.len()
        invariant
            i <= v.len(),
            s@ == v@.take(i as int),
        decreases v.len() - i,
    {
        push_char(&mut s, v[i]);
        proof {
            assert(v@.take(i + 1) =~= v@.take(i as int).push(v@[i as int]));
        }
        i = i + 1;
    }
    proof {
        assert(v@.take(v.len() as int) =~= v@);
    }
    s
}

/// Unicode `White_Space`, the set that `char::is_whitespace` tests.
pub open spec fn is_ws(c: char) -> bool {
    ||| ('\u{9}' <= c && c <= '\u{d}')
    ||| c == ' '
    ||| c == '\u{85}'
    ||| c == '\u{a0}'
    ||| c == '\u{1680}'
    ||| ('\u{2000}' <= c && c <= '\u{200a}')
    ||| c == '\u{2028}'
    ||| c == '\u{2029}'
    ||| c == '\u{202f}'
    ||| c == '\u{205f}'
    ||| c == '\u{3000}'
}

pub fn is_whitespace(c: char) -> (b: bool)
    ensures
        b == is_ws(c),
{
    ('\u{9}' <= c && c <= '\u{d}') || c == ' ' || c == '\u{85}' || c == '\u{a0}' || c == '\u{1680}'
        || ('\u{2000}' <= c && c <= '\u{200a}') || c == '\u{2028}' || c == '\u{2029}' || c
        == '\u{202f}' || c == '\u{205f}' || c == '\u{3000}'
}

/// The pieces of `s` between the characters that satisfy `is_sep`, as
/// `str::split` with a character predicate yields them: `n` separators give
/// `n + 1` pieces, empty ones included.
pub open spec fn split_by(s: Seq<char>, is_sep: spec_fn(char) -> bool) -> Seq<Seq<char>>
    decreases s.len(),
{
    if s.len() == 0 {
        seq![Seq::<char>::empty()]
    } else {
        let init = split_by(s.drop_last(), is_sep);
        if is_sep(s.last()) {
            init.push(Seq::<char>::empty())
        } else {
            init.update(init.len() - 1, init.last().push(s.last()))
        }
    }
}

pub proof fn lemma_split_by_nonempty(s: Seq<char>, is_sep: spec_fn(char) -> bool)
    ensures
        split_by(s, is_sep).len() >= 1,
    decreases s.len(),
{
    if s.len() > 0 {
        lemma_split_by_nonempty(s.drop_last(), is_sep);
    }
}

/// The predicate "is the character `sep`".
pub open spec fn is_char(sep: char) -> spec_fn(char) -> bool {
    |c: char| c == sep
}

/// The predicate "is whitespace".
pub open spec fn ws_pred() -> spec_fn(char) -> bool {
    |c: char| is_ws(c)
}

/// The predicate "is a non-empty piece".
pub open spec fn nonempty_pred() -> spec_fn(Seq<char>) -> bool {
    |w: Seq<char>| w.len() > 0
}

/// `str::split` on one separator character.
pub open spec fn split_on(s: Seq<char>, sep: char) -> Seq<Seq<char>> {
    split_by(s, is_char(sep))
}

/// `str::split_whitespace`: the non-empty pieces between whitespace.
pub open spec fn words(s: Seq<char>) -> Seq<Seq<char>> {
    split_by(s, ws_pred()).filter(nonempty_pred())
}

/// The views of a sequence of character vectors.
pub open spec fn views(v: Seq<Vec<char>>) -> Seq<Seq<char>> {
    v.map_values(|p: Vec<char>| p@)
}

/// Splits `s` at every occurrence of `sep`.
pub fn split_chars(s: &Vec<char>, sep: char) -> (parts: Vec<Vec<char>>)
    ensures
        views(parts@) == split_on(s@, sep),
{
    let ghost is_sep = is_char(sep);
    let mut parts: Vec<Vec<char>> = Vec::new();
    let mut cur: Vec<char> = Vec::new();
    let mut i: usize = 0;
    while i < s.len()
        invariant
            i <= s.len(),
            is_sep == is_char(sep),
            views(parts@).push(cur@) == split_by(s@.take(i as int), is_sep),
        decreases s.len() - i,
    {
        let c = s[i];
        proof {
            assert(s@.take(i + 1).drop_last() =~= s@.take(i as int));
            lemma_split_by_nonempty(s@.take(i as int), is_sep);
        }
        if c == sep {
            let done = cur;
            parts.push(done);
            cur = Vec::new();
            proof {
                assert(views(parts@).push(cur@) =~= split_by(s@.take(i + 1), is_sep));
            }
        } else {
            cur.push(c);
            proof {
                assert(views(parts@).push(cur@) =~= split_by(s@.take(i + 1), is_sep));
            }
        }
        i = i + 1;
    }
    parts.push(cur);
    proof {
        assert(s@.take(s.len() as int) =~= s@);
        assert(views(parts@) =~= split_by(s@, is_sep));
    }
    parts
}

/// The pieces of `s` between whitespace characters, empty ones included.
fn split_whitespace_pieces(s: &Vec<char>) -> (parts: Vec<Vec<char>>)
    ensures
        views(parts@) == split_by(s@, ws_pred()),
{
    let ghost is_sep = ws_pred();
    let mut parts: Vec<Vec<char>> = Vec::new();
    let mut cur: Vec<char> = Vec::new();
    let mut i: usize = 0;
    while i < s.len()
        invariant
            i <= s.len(),
            is_sep == ws_pred(),
            views(parts@).push(cur@) == split_by(s@.take(i as int), is_sep),
        decreases s.len() - i,
    {
        let c = s[i];
        proof {
            assert(s@.take(i + 1).drop_last() =~= s@.take(i as int));
            lemma_split_by_nonempty(s@.take(i as int), is_sep);
        }
        if is_whitespace(c) {
            let done = cur;
            parts.push(done);
            cur = Vec::new();
            proof {
                assert(views(parts@).push(cur@) =~= split_by(s@.take(i + 1), is_sep));
            }
        } else {
            cur.push(c);
            proof {
                assert(views(parts@).push(cur@) =~= split_by(s@.take(i + 1), is_sep));
            }
        }
        i = i + 1;
    }
    parts.push(cur);
    proof {
        assert(s@.take(s.len() as int) =~= s@);
        assert(views(parts@) =~= split_by(s@, is_sep));
    }
    parts
}

/// The whitespace-separated words of `s`, as `str::split_whitespace` yields them.
pub fn split_whitespace_chars(s: &Vec<char>) -> (ws: Vec<Vec<char>>)
    ensures
        views(ws@) == words(s@),
{
    let pieces = split_whitespace_pieces(s);
    let ghost p = views(pieces@);
    let mut ws: Vec<Vec<char>> = Vec::new();
    let mut i: usize = 0;
    while i < pieces.len()
        invariant
            i <= pieces.len(),
            p == views(pieces@),
            p.len() == pieces.len(),
            views(ws@) == p.take(i as int).filter(nonempty_pred()),
        decreases pieces.len() - i,
    {
        proof {
            reveal_with_fuel(Seq::<_>::filter, 1);
            assert(p.take(i + 1).drop_last() =~= p.take(i as int));
            assert(p[i as int] == pieces@[i as int]@);
        }
        if pieces[i].len() > 0 {
            ws.push(pieces[i].clone());
            proof {
                assert(views(ws@) =~= p.take(i + 1).filter(nonempty_pred()));
            }
        } else {
            proof {
                assert(views(ws@) =~= p.take(i + 1).filter(nonempty_pred()));
            }
        }
        i = i + 1;
    }
    proof {
        assert(p.take(pieces.len() as int) =~= p);
    }
    ws
}

/// `s` without its leading whitespace.
pub open spec fn trim_start(s: Seq<char>) -> Seq<char>
    decreases s.len(),
{
    if s.len() > 0 && is_ws(s[0]) {
        trim_start(s.drop_first())
    } else {
        s
    }
}

/// `s` without its trailing whitespace.
pub open spec fn trim_end(s: Seq<char>) -> Seq<char>
    decreases s.len(),
{
    if s.len() > 0 && is_ws(s.last()) {
        trim_end(s.drop_last())
    } else {
        s
    }
}

/// `str::trim`: `s` without leading and trailing whitespace.
pub open spec fn trim(s: Seq<char>) -> Seq<char> {
    trim_end(trim_start(s))
}

/// The characters of `s` without leading and trailing whitespace.
pub fn trim_chars(s: &Vec<char>) -> (t: Vec<char>)
    ensures
        t@ == trim(s@),
{
    let n = s.len();
    let mut a: usize = 0;
    proof {
        assert(s@.skip(0) =~= s@);
    }
    while a < n && is_whitespace(s[a])
        invariant
            a <= n,
            n == s.len(),
            trim_start(s@) == trim_start(s@.skip(a as int)),
        decreases n - a,
    {
        proof {
            assert(s@.skip(a + 1) =~= s@.skip(a as int).drop_first());
        }
        a = a + 1;
    }
    let ghost rest = s@.skip(a as int);
    proof {
        assert(trim_start(rest) == rest);
    }
    let mut b: usize = n;
    while b > a && is_whitespace(s[b - 1])
        invariant
            a <= b <= n,
            n == s.len(),
            rest == s@.skip(a as int),
            trim_end(rest) == trim_end(s@.subrange(a as int, b as int)),
        decreases b,
    {
        proof {
            assert(s@.subrange(a as int, b - 1) =~= s@.subrange(a as int, b as int).drop_last());
        }
        b = b - 1;
    }
    let mut t: Vec<char> = Vec::new();
    let mut k: usize = a;
    while k < b
        invariant
            a <= k <= b <= n,
            n == s.len(),
            t@ == s@.subrange(a as int, k as int),
        decreases b - k,
    {
        t.push(s[k]);
        proof {
            assert(t@ =~= s@.subrange(a as int, k + 1));
        }
        k = k + 1;
    }
    proof {
        assert(s@.skip(a as int) =~= s@.subrange(a as int, n as int));
    }
    t
}

/// The value of one digit character in `radix`, as `char::to_digit` gives it.
pub open spec fn digit_value(c: char, radix: nat) -> Option<nat> {
    let d: int = if '0' <= c && c <= '9' {
        c as int - '0' as int
    } else if 'a' <= c && c <= 'z' {
        c as int - 'a' as int + 10
    } else if 'A' <= c && c <= 'Z' {
        c as int - 'A' as int + 10
    } else {
        radix as int
    };
    if d < radix {
        Some(d as nat)
    } else {
        None
    }
}

/// The value of a string of digits in `radix` (`Some(0)` for no digits), or
/// `None` when some character is not a digit.
pub open spec fn digits_value(d: Seq<char>, radix: nat) -> Option<nat>
    decreases d.len(),
{
    if d.len() == 0 {
        Some(0)
    } else {
        match (digits_value(d.drop_last(), radix), digit_value(d.last(), radix)) {
            (Some(v), Some(x)) => Some(v * radix + x),
            _ => None,
        }
    }
}

/// The number that `from_str_radix` reads for an unsigned type, before the
/// range check: an optional `+`, then at least one digit, nothing else.
pub open spec fn parse_unsigned(s: Seq<char>, radix: nat) -> Option<nat> {
    let d = if s.len() > 0 && s[0] == '+' {
        s.drop_first()
    } else {
        s
    };
    if d.len() == 0 {
        None
    } else {
        digits_value(d, radix)
    }
}

/// What `from_str_radix` (and `str::parse`, with radix 10) returns for an
/// unsigned type whose largest value is `max`: the number when it is in range.
pub open spec fn parse_bounded(s: Seq<char>, radix: nat, max: nat) -> Option<nat> {
    match parse_unsigned(s, radix) {
        Some(v) => if v <= max {
            Some(v)
        } else {
            None
        },
        None => None,
    }
}

proof fn lemma_digits_invalid(d: Seq<char>, radix: nat, k: int)
    requires
        0 <= k < d.len(),
        digit_value(d[k], radix) is None,
    ensures
        digits_value(d, radix) is None,
    decreases d.len(),
{
    if k < d.len() - 1 {
        lemma_digits_invalid(d.drop_last(), radix, k);
    }
}

proof fn lemma_digits_prefix(d: Seq<char>, radix: nat, k: int)
    requires
        0 <= k <= d.len(),
        radix >= 1,
        digits_value(d, radix) is Some,
    ensures
        digits_value(d.take(k), radix) is Some,
        digits_value(d.take(k), radix)->0 <= digits_value(d, radix)->0,
    decreases d.len(),
{
    if k == d.len() {
        assert(d.take(k) =~= d);
    } else {
        let v = digits_value(d.drop_last(), radix)->0;
        let x = digit_value(d.last(), radix)->0;
        assert(v * radix >= v) by (nonlinear_arith)
            requires
                radix >= 1,
        ;
        lemma_digits_prefix(d.drop_last(), radix, k);
        assert(d.drop_last().take(k) =~= d.take(k));
    }
}

fn digit_of(c: char, radix: u32) -> (r: Option<u32>)
    requires
        2 <= radix <= 36,
    ensures
        match digit_value(c, radix as nat) {
            Some(v) => r == Some(v as u32),
            None => r is None,
        },
{
    let d: u32 = if '0' <= c && c <= '9' {
        c as u32 - '0' as u32
    } else if 'a' <= c && c <= 'z' {
        c as u32 - 'a' as u32 + 10
    } else if 'A' <= c && c <= 'Z' {
        c as u32 - 'A' as u32 + 10
    } else {
        radix
    };
    if d < radix {
        Some(d)
    } else {
        None
    }
}

/// Reads an unsigned number in `radix` no larger than `max`, as
/// `from_str_radix` does for an unsigned type whose largest value is `max`.
pub fn parse_unsigned_chars(s: &Vec<char>, radix: u32, max: u64) -> (r: Option<u64>)
    requires
        2 <= radix <= 36,
    ensures
        match parse_bounded(s@, radix as nat, max as nat) {
            Some(v) => r == Some(v as u64),
            None => r is None,
        },
{
    let n = s.len();
    let mut i: usize = 0;
    if n > 0 && s[0] == '+' {
        i = 1;
    }
    if i == n {
        return None;
    }
    let ghost start = i as int;
    let ghost d = s@.skip(start);
    proof {
        assert(d == (if s@.len() > 0 && s@[0] == '+' { s@.drop_first() } else { s@ }));
        assert(d.take(0) =~= Seq::<char>::empty());
    }
    let mut acc: u64 = 0;
    while i < n
        invariant
            0 <= start <= i <= n,
            n == s.len(),
            d.len() == n - start,
            parse_unsigned(s@, radix as nat) == digits_value(d, radix as nat),
            2 <= radix <= 36,
            d == s@.skip(start),
            digits_value(d.take(i - start), radix as nat) == Some(acc as nat),
            acc <= max,
        decreases n - i,
    {
        proof {
            assert(d.take(i - start + 1).drop_last() =~= d.take(i - start));
            assert(d[i - start] == s@[i as int]);
        }
        let x = match digit_of(s[i], radix) {
            Some(x) => x,
            None => {
                proof {
                    lemma_digits_invalid(d, radix as nat, i - start);
                }
                return None;
            },
        };
        assert(acc as int * radix as int <= u64::MAX as int * 36) by (nonlinear_arith)
            requires
                acc <= u64::MAX,
                radix <= 36,
        ;
        let next: u128 = acc as u128 * radix as u128 + x as u128;
        if next > max as u128 {
            proof {
                if digits_value(d, radix as nat) is Some {
                    lemma_digits_prefix(d, radix as nat, i - start + 1);
                }
            }
            return None;
        }
        acc = next as u64;
        i = i + 1;
    }
    proof {
        assert(d.take(n - start) =~= d);
    }
    Some(acc)
}

/// The character of a decimal digit.
pub open spec fn digit_char(d: nat) -> char {
    ((48 + d) as u8) as char
}

/// The decimal representation of `n`, as `{}` formats an integer.
pub open spec fn decimal(n: nat) -> Seq<char>
    decreases n,
{
    if n < 10 {
        seq![digit_char(n)]
    } else {
        decimal(n / 10).push(digit_char(n % 10))
    }
}

/// Appends the decimal representation of `n` to `s`.
pub fn push_decimal(s: &mut String, n: u64)
    ensures
        final(s)@ == old(s)@ + decimal(n as nat),
    decreases n,
{
    if n >= 10 {
        push_decimal(s, n / 10);
    }
    let d: u8 = (n % 10) as u8;
    push_char(s, (48u8 + d) as char);
    proof {
        if n >= 10 {
            assert(decimal(n as nat) == decimal((n / 10) as nat).push(digit_char((n % 10) as nat)));
        }
    }
}

/// A copy of a character vector.
pub fn copy_chars(v: &Vec<char>) -> (r: Vec<char>)
    ensures
        r@ == v@,
{
    let mut r: Vec<char> = Vec::new();
    let mut i: usize = 0;
    while i < v.len()
        invariant
            i <= v.len(),
            r@ == v@.take(i as int),
        decreases v.len() - i,
    {
        r.push(v[i]);
        proof {
            assert(r@ =~= v@.take(i + 1));
        }
        i = i + 1;
    }
    proof {
        assert(v@.take(v.len() as int) =~= v@);
    }
    r
}

/// Whether two character vectors hold the same characters.
pub fn chars_equal(a: &Vec<char>, b: &Vec<char>) -> (r: bool)
    ensures
        r == (a@ == b@),
{
    if a.len() != b.len() {
        return false;
    }
    let mut i: usize = 0;
    while i < a.len()
        invariant
            i <= a.len(),
            a.len() == b.len(),
            forall|k: int| 0 <= k < i ==> a@[k] == b@[k],
        decreases a.len() - i,
    {
        if a[i] != b[i] {
            return false;
        }
        i = i + 1;
    }
    proof {
        assert(a@ =~= b@);
    }
    true
}

} // verus!
