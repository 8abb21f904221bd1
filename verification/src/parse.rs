//! Character-level parsing helpers: case folding, searching, digits,
//! decimal amounts, booleans and `YYYY-MM-DD` date tokens.

use vstd::prelude::*;
use vstd::string::StrSliceExecFns;

use crate::date::{days_in_month, days_in_month_exec, Date};

verus! {

/// Largest amount a cash event may carry, in cents.
pub const MAX_CENTS: u64 = 1_000_000_000_000_000;

/// ASCII lower-casing of one character; anything but `A`..`Z` is kept.
pub open spec fn lower_char(c: char) -> char {
    if 65 <= c as u32 && c as u32 <= 90 {
        (((c as u32) + 32) as u8) as char
    } else {
        c
    }
}

pub open spec fn lower_seq(s: Seq<char>) -> Seq<char> {
    s.map_values(|c: char| lower_char(c))
}

pub fn lower_char_exec(c: char) -> (r: char)
    ensures
        r == lower_char(c),
{
    let u = c as u32;
    if 65 <= u && u <= 90 {
        ((u + 32) as u8) as char
    } else {
        c
    }
}

/// Index of the first occurrence of `c` in `s`, or `s.len()` when `c`
/// does not occur.
pub open spec fn find_char(s: Seq<char>, c: char) -> int
    decreases s.len(),
{
    if s.len() == 0 {
        0
    } else if s[0] == c {
        0
    } else {
        1 + find_char(s.subrange(1, s.len() as int), c)
    }
}

pub proof fn lemma_find_char_is(s: Seq<char>, c: char, i: int)
    requires
        0 <= i <= s.len(),
        forall|j: int| 0 <= j < i ==> s[j] != c,
        i < s.len() ==> s[i] == c,
    ensures
        find_char(s, c) == i,
    decreases s.len(),
{
    if s.len() == 0 {
    } else if s[0] == c {
        assert(i == 0);
    } else {
        let t = s.subrange(1, s.len() as int);
        assert forall|j: int| 0 <= j < i - 1 implies t[j] != c by {
            assert(t[j] == s[j + 1]);
        }
        lemma_find_char_is(t, c, i - 1);
    }
}

pub fn find_char_in(s: &str, c: char) -> (r: usize)
    ensures
        r == find_char(s@, c),
        r <= s@.len(),
{
    let n = s.unicode_len();
    let mut i: usize = 0;
    while i < n
        invariant
            n == s@.len(),
            i <= n,
            forall|j: int| 0 <= j < i ==> s@[j] != c,
        decreases n - i,
    {
        if s.get_char(i) == c {
            proof {
                lemma_find_char_is(s@, c, i as int);
            }
            return i;
        }
        i = i + 1;
    }
    proof {
        lemma_find_char_is(s@, c, n as int);
    }
    n
}

pub open spec fn is_digit(c: char) -> bool {
    48 <= c as u32 && c as u32 <= 57
}

pub open spec fn digit_val(c: char) -> int {
    c as u32 - 48
}

pub open spec fn all_digits(s: Seq<char>) -> bool {
    forall|i: int| 0 <= i < s.len() ==> is_digit(#[trigger] s[i])
}

/// The number a sequence of decimal digits denotes.
pub open spec fn digits_val(s: Seq<char>) -> int
    decreases s.len(),
{
    if s.len() == 0 {
        0
    } else {
        digits_val(s.drop_last()) * 10 + digit_val(s.last())
    }
}

pub open spec fn pow10(n: nat) -> int
    decreases n,
{
    if n == 0 {
        1
    } else {
        10 * pow10((n - 1) as nat)
    }
}

pub proof fn lemma_digits_val_bound(s: Seq<char>)
    requires
        all_digits(s),
    ensures
        0 <= digits_val(s) < pow10(s.len()),
    decreases s.len(),
{
    if s.len() == 0 {
    } else {
        assert(all_digits(s.drop_last())) by {
            assert(forall|i: int| 0 <= i < s.len() - 1 ==> s.drop_last()[i] == s[i]);
        }
        lemma_digits_val_bound(s.drop_last());
        assert(is_digit(s.last()));
    }
}

/// Reads the digits of `s` between `from` and `to` as a number; fails
/// exactly when some character there is not a decimal digit.
pub fn read_fixed_digits(s: &str, from: usize, to: usize) -> (r: Option<u32>)
    requires
        from <= to <= s@.len(),
        to - from <= 9,
    ensures
        match r {
            Some(v) => all_digits(s@.subrange(from as int, to as int)) && v == digits_val(
                s@.subrange(from as int, to as int),
            ),
            None => !all_digits(s@.subrange(from as int, to as int)),
        },
{
    let mut i: usize = from;
    let mut acc: u32 = 0;
    while i < to
        invariant
            from <= i <= to <= s@.len(),
            to - from <= 9,
            all_digits(s@.subrange(from as int, i as int)),
            acc == digits_val(s@.subrange(from as int, i as int)),
        decreases to - i,
    {
        let c = s.get_char(i);
        let u = c as u32;
        if u < 48 || u > 57 {
            proof {
                assert(s@.subrange(from as int, to as int)[i - from] == s@[i as int]);
            }
            return None;
        }
        proof {
            lemma_digits_val_bound(s@.subrange(from as int, i as int));
            assert(pow10((i - from) as nat) <= pow10(8)) by {
                lemma_pow10_mono((i - from) as nat, 8);
            }
            lemma_pow10_vals();
        }
        let d = u - 48;
        let ghost pre = s@.subrange(from as int, i as int);
        acc = acc * 10 + d;
        proof {
            let post = s@.subrange(from as int, i + 1 as int);
            assert(post.drop_last() =~= pre);
            assert(post.last() == s@[i as int]);
        }
        i = i + 1;
    }
    Some(acc)
}

pub proof fn lemma_pow10_vals()
    ensures
        pow10(1) == 10,
        pow10(2) == 100,
        pow10(4) == 10000,
        pow10(8) == 100000000,
{
    reveal_with_fuel(pow10, 9);
}

pub proof fn lemma_pow10_mono(a: nat, b: nat)
    requires
        a <= b,
    ensures
        pow10(a) <= pow10(b),
        pow10(a) >= 1,
    decreases b,
{
    if b == 0 {
    } else if a == b {
        lemma_pow10_mono((a - 1) as nat, (b - 1) as nat);
    } else {
        lemma_pow10_mono(a, (b - 1) as nat);
    }
}

/// Exact string equality on views.
pub fn str_eq(a: &str, b: &str) -> (r: bool)
    ensures
        r == (a@ == b@),
{
    let n = a.unicode_len();
    if n != b.unicode_len() {
        return false;
    }
    let mut i: usize = 0;
    while i < n
        invariant
            a@.len() == n,
            b@.len() == n,
            i <= n,
            forall|j: int| 0 <= j < i ==> a@[j] == b@[j],
        decreases n - i,
    {
        if a.get_char(i) != b.get_char(i) {
            return false;
        }
        i = i + 1;
    }
    proof {
        assert(a@ =~= b@);
    }
    true
}

/// Case-insensitive comparison of `s[from..to]` against an already
/// lower-case token.
pub fn seg_eq_lower(s: &str, from: usize, to: usize, lit: &str) -> (r: bool)
    requires
        from <= to <= s@.len(),
    ensures
        r == (lower_seq(s@.subrange(from as int, to as int)) == lit@),
{
    let ghost seg = s@.subrange(from as int, to as int);
    let m = lit.unicode_len();
    if to - from != m {
        proof {
            assert(lower_seq(seg).len() == seg.len());
        }
        return false;
    }
    let mut i: usize = 0;
    while i < m
        invariant
            from + m == to,
            to <= s@.len(),
            lit@.len() == m,
            seg == s@.subrange(from as int, to as int),
            i <= m,
            forall|j: int| 0 <= j < i ==> lower_seq(seg)[j] == lit@[j],
        decreases m - i,
    {
        let c = lower_char_exec(s.get_char(from + i));
        proof {
            assert(seg[i as int] == s@[from + i]);
            assert(lower_seq(seg)[i as int] == lower_char(seg[i as int]));
        }
        if c != lit.get_char(i) {
            return false;
        }
        i = i + 1;
    }
    proof {
        assert(lower_seq(seg) =~= lit@);
    }
    true
}

/// `true`/`false`, and nothing else.
pub open spec fn bool_token_spec(s: Seq<char>) -> Option<bool> {
    if s == "true"@ {
        Some(true)
    } else if s == "false"@ {
        Some(false)
    } else {
        None
    }
}

pub fn parse_bool(s: &str) -> (r: Option<bool>)
    ensures
        r == bool_token_spec(s@),
{
    if str_eq(s, "true") {
        Some(true)
    } else if str_eq(s, "false") {
        Some(false)
    } else {
        None
    }
}

/// A date written exactly as `YYYY-MM-DD` naming a real calendar day.
pub open spec fn date_token_spec(s: Seq<char>) -> Option<Date> {
    if s.len() == 10 && s[4] == '-' && s[7] == '-' && all_digits(s.subrange(0, 4)) && all_digits(
        s.subrange(5, 7),
    ) && all_digits(s.subrange(8, 10)) {
        let y = digits_val(s.subrange(0, 4));
        let m = digits_val(s.subrange(5, 7));
        let d = digits_val(s.subrange(8, 10));
        if 1 <= m <= 12 && 1 <= d <= days_in_month(y, m) {
            Some(Date { year: y as i32, month: m as u8, day: d as u8 })
        } else {
            None
        }
    } else {
        None
    }
}

pub fn parse_date_token(s: &str) -> (r: Option<Date>)
    ensures
        r == date_token_spec(s@),
        r matches Some(d) ==> d.valid(),
{
    let n = s.unicode_len();
    if n != 10 {
        return None;
    }
    if s.get_char(4) != '-' || s.get_char(7) != '-' {
        return None;
    }
    let y = match read_fixed_digits(s, 0, 4) {
        Some(v) => v,
        None => { return None },
    };
    let m = match read_fixed_digits(s, 5, 7) {
        Some(v) => v,
        None => { return None },
    };
    let d = match read_fixed_digits(s, 8, 10) {
        Some(v) => v,
        None => { return None },
    };
    proof {
        lemma_digits_val_bound(s@.subrange(0, 4));
        lemma_digits_val_bound(s@.subrange(5, 7));
        lemma_digits_val_bound(s@.subrange(8, 10));
        lemma_pow10_vals();
    }
    if 1 <= m && m <= 12 && 1 <= d {
        let dm = days_in_month_exec(y as i32, m as u8);
        if d <= dm as u32 {
            return Some(Date { year: y as i32, month: m as u8, day: d as u8 });
        }
    }
    None
}

/// An unsigned decimal amount of dollars with at most two digits after
/// the point, as a number of cents; `None` when malformed or above
/// [`MAX_CENTS`].
pub open spec fn cents_value_spec(s: Seq<char>) -> Option<int> {
    let p = find_char(s, '.');
    let ip = s.subrange(0, p);
    if !(ip.len() >= 1 && all_digits(ip)) {
        None
    } else if p == s.len() {
        Some(digits_val(ip) * 100)
    } else {
        let fp = s.subrange(p + 1, s.len() as int);
        if fp.len() == 1 && all_digits(fp) {
            Some(digits_val(ip) * 100 + digits_val(fp) * 10)
        } else if fp.len() == 2 && all_digits(fp) {
            Some(digits_val(ip) * 100 + digits_val(fp))
        } else {
            None
        }
    }
}

pub open spec fn cents_token_spec(s: Seq<char>) -> Option<u64> {
    match cents_value_spec(s) {
        Some(v) => if v <= MAX_CENTS {
            Some(v as u64)
        } else {
            None
        },
        None => None,
    }
}

pub fn parse_cents(s: &str) -> (r: Option<u64>)
    ensures
        r == cents_token_spec(s@),
        r matches Some(v) ==> v <= MAX_CENTS,
{
    let n = s.unicode_len();
    let p = find_char_in(s, '.');
    if p == 0 {
        return None;
    }
    let ghost ip = s@.subrange(0, p as int);
    let mut i: usize = 0;
    let mut acc: u64 = 0;
    let ghost cap: int = 10_000_000_000_000_000;
    while i < p
        invariant
            0 < p <= s@.len(),
            p == find_char(s@, '.'),
            ip == s@.subrange(0, p as int),
            i <= p,
            all_digits(s@.subrange(0, i as int)),
            digits_val(s@.subrange(0, i as int)) <= cap ==> acc == digits_val(
                s@.subrange(0, i as int),
            ),
            digits_val(s@.subrange(0, i as int)) > cap ==> acc > cap,
            cap == 10_000_000_000_000_000,
        decreases p - i,
    {
        let c = s.get_char(i);
        let u = c as u32;
        if u < 48 || u > 57 {
            proof {
                assert(ip[i as int] == s@[i as int]);
            }
            return None;
        }
        let d = (u - 48) as u64;
        let ghost pre = s@.subrange(0, i as int);
        let ghost post = s@.subrange(0, i + 1 as int);
        proof {
            assert(post.drop_last() =~= pre);
            assert(post.last() == s@[i as int]);
            lemma_digits_val_bound(pre);
        }
        if acc <= 10_000_000_000_000_000 {
            acc = acc * 10 + d;
        }
        i = i + 1;
    }
    assert(s@.subrange(0, i as int) =~= ip);
    if acc > MAX_CENTS / 100 {
        proof {
            let pl = find_char(s@, '.');
            if pl < s@.len() {
                let fp = s@.subrange(pl + 1, s@.len() as int);
                if all_digits(fp) {
                    lemma_digits_val_bound(fp);
                }
            }
        }
        return None;
    }
    if p == n {
        let v = acc * 100;
        return Some(v);
    }
    let flen = n - p - 1;
    if flen == 0 || flen > 2 {
        return None;
    }
    let f = match read_fixed_digits(s, p + 1, n) {
        Some(v) => v,
        None => { return None },
    };
    proof {
        lemma_digits_val_bound(s@.subrange(p + 1, n as int));
        lemma_pow10_vals();
    }
    let v: u64 = if flen == 1 {
        acc * 100 + (f as u64) * 10
    } else {
        acc * 100 + (f as u64)
    };
    if v <= MAX_CENTS {
        Some(v)
    } else {
        None
    }
}

} // verus!
