//! Verified text rendering: month labels, two-decimal money amounts
//! right-aligned to the report's column width, whole report lines and
//! frequency labels.

use vstd::prelude::*;
use vstd::string::{StrSliceExecFns, StringExecFns};

use crate::date::Date;
use crate::event::Frequency;
use crate::report::{cents_nearest, round_units_to_cents, MonthRow, MAX_TOTAL_UNITS};

verus! {

pub open spec fn digit_char(d: int) -> char {
    if d == 0 {
        '0'
    } else if d == 1 {
        '1'
    } else if d == 2 {
        '2'
    } else if d == 3 {
        '3'
    } else if d == 4 {
        '4'
    } else if d == 5 {
        '5'
    } else if d == 6 {
        '6'
    } else if d == 7 {
        '7'
    } else if d == 8 {
        '8'
    } else {
        '9'
    }
}

fn digit_str(d: u8) -> (r: &'static str)
    requires
        d < 10,
    ensures
        r@ == seq![digit_char(d as int)],
{
    let r: &'static str = if d == 0 {
        "0"
    } else if d == 1 {
        "1"
    } else if d == 2 {
        "2"
    } else if d == 3 {
        "3"
    } else if d == 4 {
        "4"
    } else if d == 5 {
        "5"
    } else if d == 6 {
        "6"
    } else if d == 7 {
        "7"
    } else if d == 8 {
        "8"
    } else {
        "9"
    };
    proof {
        reveal_strlit("0");
        reveal_strlit("1");
        reveal_strlit("2");
        reveal_strlit("3");
        reveal_strlit("4");
        reveal_strlit("5");
        reveal_strlit("6");
        reveal_strlit("7");
        reveal_strlit("8");
        reveal_strlit("9");
        assert(r@ =~= seq![digit_char(d as int)]);
    }
    r
}

pub open spec fn two_digits(n: int) -> Seq<char> {
    seq![digit_char(n / 10 % 10), digit_char(n % 10)]
}

pub open spec fn four_digits(n: int) -> Seq<char> {
    seq![
        digit_char(n / 1000 % 10),
        digit_char(n / 100 % 10),
        digit_char(n / 10 % 10),
        digit_char(n % 10),
    ]
}

fn append_two_digits(out: &mut String, n: u8)
    requires
        n < 100,
    ensures
        final(out)@ == old(out)@ + two_digits(n as int),
{
    out.append(digit_str(n / 10));
    out.append(digit_str(n % 10));
    proof {
        assert(old(out)@ + seq![digit_char(n as int / 10)] + seq![digit_char(n as int % 10)]
            =~= old(out)@ + two_digits(n as int));
    }
}

fn append_four_digits(out: &mut String, n: u32)
    requires
        n <= 9999,
    ensures
        final(out)@ == old(out)@ + four_digits(n as int),
{
    out.append(digit_str((n / 1000) as u8));
    out.append(digit_str((n / 100 % 10) as u8));
    out.append(digit_str((n / 10 % 10) as u8));
    out.append(digit_str((n % 10) as u8));
    proof {
        assert(old(out)@ + seq![digit_char(n as int / 1000)] + seq![digit_char(n as int / 100 % 10)]
            + seq![digit_char(n as int / 10 % 10)] + seq![digit_char(n as int % 10)] =~= old(out)@
            + four_digits(n as int));
    }
}

/// A month written as `YYYY-MM`.
pub open spec fn month_label_spec(d: Date) -> Seq<char> {
    four_digits(d.year as int) + seq!['-'] + two_digits(d.month as int)
}

pub fn month_label(d: &Date) -> (r: String)
    requires
        d.valid(),
    ensures
        r@ == month_label_spec(*d),
{
    let mut out = String::new();
    append_four_digits(&mut out, d.year as u32);
    out.append("-");
    append_two_digits(&mut out, d.month);
    proof {
        reveal_strlit("-");
        assert(out@ =~= month_label_spec(*d));
    }
    out
}

/// The decimal digits of a non-negative number, most significant
/// first, with no leading zero except for zero itself.
pub open spec fn dec_str(n: int) -> Seq<char>
    decreases n,
{
    if n < 10 {
        seq![digit_char(n)]
    } else {
        dec_str(n / 10).push(digit_char(n % 10))
    }
}

/// An amount of cents written as dollars with exactly two decimals,
/// a leading `-` when negative.
pub open spec fn money_chars(c: int) -> Seq<char> {
    let a = if c >= 0 {
        c
    } else {
        -c
    };
    let sign: Seq<char> = if c < 0 {
        seq!['-']
    } else {
        Seq::empty()
    };
    sign + dec_str(a / 100) + seq!['.'] + two_digits(a % 100)
}

pub open spec fn spaces(n: int) -> Seq<char> {
    Seq::new(
        if n >= 0 {
            n as nat
        } else {
            0
        },
        |i: int| ' ',
    )
}

/// `s`, preceded by just enough spaces to reach width `w`.
pub open spec fn right_aligned(s: Seq<char>, w: int) -> Seq<char> {
    spaces(w - s.len()) + s
}

spec fn rev_digit_chars(ds: Seq<u8>) -> Seq<char> {
    Seq::new(ds.len(), |i: int| digit_char(ds[ds.len() - 1 - i] as int))
}

pub fn money_string(cents: i128) -> (r: String)
    requires
        -1_000_000_000_000_000_000_000_000_000_000_000 <= cents
            <= 1_000_000_000_000_000_000_000_000_000_000_000,
    ensures
        r@ == money_chars(cents as int),
{
    let neg = cents < 0;
    let a: i128 = if neg {
        -cents
    } else {
        cents
    };
    let ghost dollars: int = a as int / 100;
    let mut v: i128 = a / 100;
    let fr: i128 = a % 100;
    let mut digs: Vec<u8> = Vec::new();
    let ghost v0: int = v as int;
    digs.push((v % 10) as u8);
    v = v / 10;
    proof {
        if v0 < 10 {
            assert(rev_digit_chars(digs@) =~= seq![digit_char(v0)]);
        } else {
            assert(dec_str(v0) == dec_str(v0 / 10).push(digit_char(v0 % 10)));
            assert(dec_str(v0 / 10) + rev_digit_chars(digs@) =~= dec_str(v0));
        }
    }
    while v > 0
        invariant
            0 <= v,
            digs@.len() >= 1,
            forall|i: int| 0 <= i < digs@.len() ==> digs@[i] < 10,
            v > 0 ==> dec_str(dollars) == dec_str(v as int) + rev_digit_chars(digs@),
            v == 0 ==> dec_str(dollars) == rev_digit_chars(digs@),
        decreases v,
    {
        let ghost w: int = v as int;
        let ghost pre = digs@;
        digs.push((v % 10) as u8);
        v = v / 10;
        proof {
            assert(rev_digit_chars(digs@) =~= seq![digit_char(w % 10)] + rev_digit_chars(pre));
            if w < 10 {
                assert(dec_str(w) == seq![digit_char(w)]);
                assert(seq![digit_char(w % 10)] + rev_digit_chars(pre) =~= dec_str(w)
                    + rev_digit_chars(pre));
            } else {
                assert(dec_str(w) == dec_str(w / 10).push(digit_char(w % 10)));
                assert(dec_str(w / 10) + (seq![digit_char(w % 10)] + rev_digit_chars(pre)) =~= dec_str(
                    w,
                ) + rev_digit_chars(pre));
            }
        }
    }
    let mut out = String::new();
    if neg {
        out.append("-");
    }
    proof {
        reveal_strlit("-");
    }
    let ghost sign: Seq<char> = if cents < 0 {
        seq!['-']
    } else {
        Seq::empty()
    };
    proof {
        assert(out@ =~= sign + rev_digit_chars(digs@).subrange(0, 0));
    }
    let ghost len = digs@.len() as int;
    let mut k: usize = digs.len();
    while k > 0
        invariant
            k <= digs@.len(),
            len == digs@.len(),
            forall|i: int| 0 <= i < digs@.len() ==> digs@[i] < 10,
            out@ == sign + rev_digit_chars(digs@).subrange(0, len - k),
        decreases k,
    {
        k = k - 1;
        out.append(digit_str(digs[k]));
        proof {
            assert(rev_digit_chars(digs@)[len - 1 - k] == digit_char(digs@[k as int] as int));
            assert(sign + rev_digit_chars(digs@).subrange(0, len - (k + 1)) + seq![
                digit_char(digs@[k as int] as int),
            ] =~= sign + rev_digit_chars(digs@).subrange(0, len - k));
        }
    }
    out.append(".");
    append_two_digits(&mut out, fr as u8);
    proof {
        reveal_strlit(".");
        assert(rev_digit_chars(digs@).subrange(0, len) =~= rev_digit_chars(digs@));
        assert(out@ =~= money_chars(cents as int));
    }
    out
}

/// Money rendered as [`money_chars`], right-aligned to the report's
/// column width of ten characters.
pub fn money_string_padded(cents: i128) -> (r: String)
    requires
        -1_000_000_000_000_000_000_000_000_000_000_000 <= cents
            <= 1_000_000_000_000_000_000_000_000_000_000_000,
    ensures
        r@ == right_aligned(money_chars(cents as int), 10),
{
    let ms = money_string(cents);
    let n = ms.as_str().unicode_len();
    let mut out = String::new();
    let mut k: usize = if n >= 10 {
        0
    } else {
        10 - n
    };
    let ghost pad: int = k as int;
    while k > 0
        invariant
            k <= pad,
            out@ == spaces(pad).subrange(0, pad - k),
        decreases k,
    {
        out.append(" ");
        k = k - 1;
        proof {
            reveal_strlit(" ");
            assert(spaces(pad).subrange(0, pad - (k + 1)) + " "@ =~= spaces(pad).subrange(
                0,
                pad - k,
            ));
        }
    }
    out.append(ms.as_str());
    proof {
        assert(spaces(pad).subrange(0, pad) =~= spaces(pad));
        assert(pad == if money_chars(cents as int).len() >= 10 {
            0int
        } else {
            10 - money_chars(cents as int).len()
        });
        assert(spaces(10 - money_chars(cents as int).len()) =~= spaces(pad));
        assert(out@ =~= right_aligned(money_chars(cents as int), 10));
    }
    out
}

/// One output line: the month, its net amount and the running total,
/// the amounts rounded to whole cents and right-aligned.
pub open spec fn report_line_spec(row: MonthRow) -> Seq<char> {
    month_label_spec(row.month) + seq![':', '\t'] + right_aligned(
        money_chars(cents_nearest(row.net_units as int)),
        10,
    ) + seq!['\t', '=', '=', '>', '\t'] + right_aligned(
        money_chars(cents_nearest(row.cumulative_units as int)),
        10,
    )
}

pub fn report_line(row: &MonthRow) -> (r: String)
    requires
        row.month.valid(),
        -MAX_TOTAL_UNITS <= row.net_units <= MAX_TOTAL_UNITS,
        -MAX_TOTAL_UNITS <= row.cumulative_units <= MAX_TOTAL_UNITS,
    ensures
        r@ == report_line_spec(*row),
{
    let mut out = month_label(&row.month);
    out.append(":\t");
    let net = money_string_padded(round_units_to_cents(row.net_units));
    out.append(net.as_str());
    out.append("\t==>\t");
    let cum = money_string_padded(round_units_to_cents(row.cumulative_units));
    out.append(cum.as_str());
    proof {
        reveal_strlit(":\t");
        reveal_strlit("\t==>\t");
        assert(out@ =~= report_line_spec(*row));
    }
    out
}

/// A date written as `YYYY-MM-DD`.
pub open spec fn date_label_spec(d: Date) -> Seq<char> {
    four_digits(d.year as int) + seq!['-'] + two_digits(d.month as int) + seq!['-'] + two_digits(
        d.day as int,
    )
}

/// The name of a frequency, a dated one-time event carrying its date
/// in parentheses.
pub open spec fn freq_label_spec(f: Frequency) -> Seq<char> {
    match f {
        Frequency::OneTime(od) => match od {
            Some(d) => "OneTime("@ + date_label_spec(d) + ")"@,
            None => "OneTime"@,
        },
        Frequency::Daily => "Daily"@,
        Frequency::Weekly => "Weekly"@,
        Frequency::BiWeekly => "BiWeekly"@,
        Frequency::Monthly => "Monthly"@,
        Frequency::Quarterly => "Quarterly"@,
        Frequency::Yearly => "Yearly"@,
    }
}

impl Frequency {
    /// The frequency's display name.
    pub fn label(&self) -> (r: String)
        requires
            self.date_ok(),
        ensures
            r@ == freq_label_spec(*self),
    {
        match self {
            Frequency::OneTime(od) => match od {
                Some(d) => {
                    let mut out = String::new();
                    out.append("OneTime(");
                    append_four_digits(&mut out, d.year as u32);
                    out.append("-");
                    append_two_digits(&mut out, d.month);
                    out.append("-");
                    append_two_digits(&mut out, d.day);
                    out.append(")");
                    proof {
                        reveal_strlit("OneTime(");
                        reveal_strlit("-");
                        reveal_strlit(")");
                        assert(out@ =~= freq_label_spec(*self));
                    }
                    out
                },
                None => String::from_str("OneTime"),
            },
            Frequency::Daily => String::from_str("Daily"),
            Frequency::Weekly => String::from_str("Weekly"),
            Frequency::BiWeekly => String::from_str("BiWeekly"),
            Frequency::Monthly => String::from_str("Monthly"),
            Frequency::Quarterly => String::from_str("Quarterly"),
            Frequency::Yearly => String::from_str("Yearly"),
        }
    }
}

} // verus!
