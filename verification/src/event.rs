//! Cash events: how often they recur, whether they add or cost, and
//! what each one contributes to a projected month.
//!
//! A monthly contribution is an exact integer count of units of
//! 1/12,000,000 dollar: one cent is 120,000 units, so the fixed
//! frequency multipliers (x30, x4.5, x2.25, x1, /3, /12) and a tax
//! rate in basis points both stay integer.

use vstd::prelude::*;
use vstd::string::StrSliceExecFns;

use crate::date::Date;
use crate::parse::{
    date_token_spec, find_char, find_char_in, lemma_find_char_is, lower_seq, parse_date_token,
    seg_eq_lower, MAX_CENTS,
};

verus! {

/// Largest number of cash events one report may aggregate.
pub const MAX_EVENTS: u64 = 100_000_000_000;

/// Largest magnitude, in units, of one event's monthly contribution:
/// `MAX_CENTS * 10000 * 360`.
pub const MAX_UNIT: i128 = 3_600_000_000_000_000_000_000;

/// How often a cash event occurs.
#[derive(Clone, Copy, Debug, PartialEq, Eq)]
pub enum Frequency {
    OneTime(Option<Date>),
    Daily,
    Weekly,
    BiWeekly,
    Monthly,
    Quarterly,
    Yearly,
}

/// What kind of cash event a row is; only `Income` adds to the flow.
#[derive(Clone, Copy, Debug, PartialEq, Eq)]
pub enum Type {
    Bill,
    Income,
    Investment,
    Subscription,
    Other,
}

/// The date argument of a one-time token: the text between the first
/// `(` and the next `(` or the end, which must close with `)` and hold
/// a `YYYY-MM-DD` date; anything else leaves the event undated.
pub open spec fn onetime_date_spec(s: Seq<char>) -> Option<Date> {
    let p = find_char(s, '(');
    if p == s.len() {
        None
    } else {
        let rest = s.subrange(p + 1, s.len() as int);
        let q = find_char(rest, '(');
        let seg = rest.subrange(0, q);
        if seg.len() > 0 && seg.last() == ')' {
            date_token_spec(seg.drop_last())
        } else {
            None
        }
    }
}

/// The frequency a text token denotes: a case-insensitive keyword,
/// optionally followed by a parenthesized argument (only meaningful
/// for one-time events).
pub open spec fn freq_spec(s: Seq<char>) -> Option<Frequency> {
    let tok = lower_seq(s.subrange(0, find_char(s, '(')));
    if tok == "1"@ || tok == "once"@ || tok == "onetime"@ {
        Some(Frequency::OneTime(onetime_date_spec(s)))
    } else if tok == "d"@ || tok == "day"@ || tok == "daily"@ {
        Some(Frequency::Daily)
    } else if tok == "w"@ || tok == "week"@ || tok == "weekly"@ {
        Some(Frequency::Weekly)
    } else if tok == "biweekly"@ {
        Some(Frequency::BiWeekly)
    } else if tok == "m"@ || tok == "month"@ || tok == "monthly"@ {
        Some(Frequency::Monthly)
    } else if tok == "quarter"@ || tok == "quarterly"@ {
        Some(Frequency::Quarterly)
    } else if tok == "y"@ || tok == "year"@ || tok == "yearly"@ {
        Some(Frequency::Yearly)
    } else {
        None
    }
}

fn onetime_date(s: &str, p: usize) -> (r: Option<Date>)
    requires
        p == find_char(s@, '('),
        p <= s@.len(),
    ensures
        r == onetime_date_spec(s@),
        r matches Some(d) ==> d.valid(),
{
    let n = s.unicode_len();
    if p == n {
        return None;
    }
    let ghost rest = s@.subrange(p + 1, s@.len() as int);
    let mut j: usize = p + 1;
    while j < n && s.get_char(j) != '('
        invariant
            p < n == s@.len(),
            p + 1 <= j <= n,
            rest == s@.subrange(p + 1, s@.len() as int),
            forall|k: int| 0 <= k < j - (p + 1) ==> rest[k] != '(',
        decreases n - j,
    {
        proof {
            assert(rest[j - (p + 1)] == s@[j as int]);
        }
        j = j + 1;
    }
    proof {
        if j < n {
            assert(rest[j - (p + 1)] == s@[j as int]);
        }
        lemma_find_char_is(rest, '(', j - (p + 1));
    }
    if j == p + 1 {
        return None;
    }
    proof {
        assert(rest.subrange(0, j - (p + 1)).last() == s@[j - 1]);
    }
    if s.get_char(j - 1) != ')' {
        return None;
    }
    let sub = s.substring_char(p + 1, j - 1);
    proof {
        assert(rest.subrange(0, j - (p + 1)).drop_last() =~= s@.subrange(p + 1, j - 1));
    }
    parse_date_token(sub)
}

impl Frequency {
    /// Parses a frequency token; fails exactly when the keyword is
    /// not one of the recognized spellings.
    pub fn from_str(s: &str) -> (r: Result<Frequency, &'static str>)
        ensures
            match r {
                Ok(f) => freq_spec(s@) == Some(f),
                Err(m) => freq_spec(s@) is None && m@ == "Invalid frequency"@,
            },
            r matches Ok(f) ==> f.date_ok(),
    {
        let p = find_char_in(s, '(');
        if seg_eq_lower(s, 0, p, "1") || seg_eq_lower(s, 0, p, "once") || seg_eq_lower(
            s,
            0,
            p,
            "onetime",
        ) {
            Ok(Frequency::OneTime(onetime_date(s, p)))
        } else if seg_eq_lower(s, 0, p, "d") || seg_eq_lower(s, 0, p, "day") || seg_eq_lower(
            s,
            0,
            p,
            "daily",
        ) {
            Ok(Frequency::Daily)
        } else if seg_eq_lower(s, 0, p, "w") || seg_eq_lower(s, 0, p, "week") || seg_eq_lower(
            s,
            0,
            p,
            "weekly",
        ) {
            Ok(Frequency::Weekly)
        } else if seg_eq_lower(s, 0, p, "biweekly") {
            Ok(Frequency::BiWeekly)
        } else if seg_eq_lower(s, 0, p, "m") || seg_eq_lower(s, 0, p, "month") || seg_eq_lower(
            s,
            0,
            p,
            "monthly",
        ) {
            Ok(Frequency::Monthly)
        } else if seg_eq_lower(s, 0, p, "quarter") || seg_eq_lower(s, 0, p, "quarterly") {
            Ok(Frequency::Quarterly)
        } else if seg_eq_lower(s, 0, p, "y") || seg_eq_lower(s, 0, p, "year") || seg_eq_lower(
            s,
            0,
            p,
            "yearly",
        ) {
            Ok(Frequency::Yearly)
        } else {
            Err("Invalid frequency")
        }
    }

    /// Whether a frequency's optional date, if any, is a real date.
    pub open spec fn date_ok(self) -> bool {
        self matches Frequency::OneTime(od) ==> (od matches Some(d) ==> d.valid())
    }
}

/// The type a text token denotes, compared case-insensitively.
pub open spec fn type_spec(s: Seq<char>) -> Option<Type> {
    let tok = lower_seq(s);
    if tok == "bill"@ {
        Some(Type::Bill)
    } else if tok == "income"@ {
        Some(Type::Income)
    } else if tok == "investment"@ {
        Some(Type::Investment)
    } else if tok == "sub"@ || tok == "subscription"@ {
        Some(Type::Subscription)
    } else if tok == "other"@ {
        Some(Type::Other)
    } else {
        None
    }
}

impl Type {
    /// Parses a type token; fails exactly when the token is not one of
    /// the five recognized tags.
    pub fn from_str(s: &str) -> (r: Result<Type, &'static str>)
        ensures
            match r {
                Ok(t) => type_spec(s@) == Some(t),
                Err(m) => type_spec(s@) is None && m@ == "Invalid type"@,
            },
    {
        let n = s.unicode_len();
        proof {
            assert(s@.subrange(0, s@.len() as int) =~= s@);
        }
        if seg_eq_lower(s, 0, n, "bill") {
            Ok(Type::Bill)
        } else if seg_eq_lower(s, 0, n, "income") {
            Ok(Type::Income)
        } else if seg_eq_lower(s, 0, n, "investment") {
            Ok(Type::Investment)
        } else if seg_eq_lower(s, 0, n, "sub") || seg_eq_lower(s, 0, n, "subscription") {
            Ok(Type::Subscription)
        } else if seg_eq_lower(s, 0, n, "other") {
            Ok(Type::Other)
        } else {
            Err("Invalid type")
        }
    }
}

/// One row of input: a named amount with a frequency, a type and a
/// taxability flag.  The amount is a positive magnitude in cents.
#[derive(Clone, Debug, PartialEq, Eq)]
pub struct CashEvent {
    pub name: String,
    pub cents: u64,
    pub frequency: Frequency,
    pub type_: Type,
    pub is_taxable: bool,
}

impl CashEvent {
    pub open spec fn wf(self) -> bool {
        &&& self.cents <= MAX_CENTS
        &&& self.frequency.date_ok()
    }

    /// Builds an event; an absent taxability flag defaults to not
    /// taxable.
    pub fn new(
        name: String,
        cents: u64,
        frequency: Frequency,
        type_: Type,
        is_taxable: Option<bool>,
    ) -> (r: CashEvent)
        requires
            cents <= MAX_CENTS,
            frequency.date_ok(),
        ensures
            r.name == name,
            r.cents == cents,
            r.frequency == frequency,
            r.type_ == type_,
            r.is_taxable == (match is_taxable {
                Some(b) => b,
                None => false,
            }),
            r.wf(),
    {
        CashEvent {
            name,
            cents,
            frequency,
            type_,
            is_taxable: match is_taxable {
                Some(b) => b,
                None => false,
            },
        }
    }
}

/// The factor, in ten-thousandths, a taxable amount keeps at the given
/// tax rate in basis points.
pub open spec fn tax_multiplier(is_taxable: bool, tax_bp: int) -> int {
    if is_taxable {
        10000 - tax_bp
    } else {
        10000
    }
}

/// Twelve times the monthly-equivalent multiplier of a recurring
/// frequency (an integer for every variant).
pub open spec fn freq_times_twelve(f: Frequency) -> int {
    match f {
        Frequency::OneTime(_) => 12,
        Frequency::Daily => 360,
        Frequency::Weekly => 54,
        Frequency::BiWeekly => 27,
        Frequency::Monthly => 12,
        Frequency::Quarterly => 4,
        Frequency::Yearly => 1,
    }
}

/// `+1` for income, `-1` for every cost type.
pub open spec fn type_sign(t: Type) -> int {
    match t {
        Type::Income => 1,
        _ => -1,
    }
}

/// What one event adds to the month holding `month`, in units of
/// 1/12,000,000 dollar: the taxed amount, normalized by the frequency
/// multiplier, signed by the type.  A dated one-time event pays only
/// in its own year-month; an undated one never pays.
pub open spec fn contribution_units(e: CashEvent, month: Date, tax_bp: int) -> int {
    let base = e.cents * tax_multiplier(e.is_taxable, tax_bp);
    match e.frequency {
        Frequency::OneTime(od) => match od {
            Some(d) => if d.year == month.year && d.month == month.month {
                type_sign(e.type_) * base * 12
            } else {
                0
            },
            None => 0,
        },
        _ => type_sign(e.type_) * base * freq_times_twelve(e.frequency),
    }
}

pub proof fn lemma_contribution_bound(e: CashEvent, month: Date, tax_bp: int)
    requires
        e.wf(),
        0 <= tax_bp <= 10000,
    ensures
        -MAX_UNIT <= contribution_units(e, month, tax_bp) <= MAX_UNIT,
{
    let taxmul = tax_multiplier(e.is_taxable, tax_bp);
    assert(0 <= e.cents * taxmul <= 10_000_000_000_000_000_000) by (nonlinear_arith)
        requires
            0 <= e.cents <= 1_000_000_000_000_000,
            0 <= taxmul <= 10000,
    ;
}

impl CashEvent {
    /// The event's exact contribution, in units, to the month holding
    /// `date`.
    pub fn get_monthly_amount(&self, date: &Date, tax_bp: u32) -> (r: i128)
        requires
            self.wf(),
            tax_bp <= 10000,
        ensures
            r == contribution_units(*self, *date, tax_bp as int),
    {
        let taxmul: u64 = if self.is_taxable {
            10000 - (tax_bp as u64)
        } else {
            10000
        };
        proof {
            assert(0 <= self.cents * taxmul <= 10_000_000_000_000_000_000) by (nonlinear_arith)
                requires
                    0 <= self.cents <= 1_000_000_000_000_000,
                    0 <= taxmul <= 10000,
            ;
        }
        let base: i128 = (self.cents as i128) * (taxmul as i128);
        let sign: i128 = match self.type_ {
            Type::Income => 1,
            _ => -1,
        };
        match self.frequency {
            Frequency::OneTime(od) => match od {
                Some(d) => if d.year == date.year && d.month == date.month {
                    sign * base * 12
                } else {
                    0
                },
                None => 0,
            },
            Frequency::Daily => sign * base * 360,
            Frequency::Weekly => sign * base * 54,
            Frequency::BiWeekly => sign * base * 27,
            Frequency::Monthly => sign * base * 12,
            Frequency::Quarterly => sign * base * 4,
            Frequency::Yearly => sign * base,
        }
    }
}

/// A monthly, non-taxable income event of X cents contributes exactly
/// +X — `X * 120000` units — to every month.
pub proof fn lemma_monthly_income(e: CashEvent, month: Date, tax_bp: int)
    requires
        e.frequency == Frequency::Monthly,
        e.type_ == Type::Income,
        !e.is_taxable,
    ensures
        contribution_units(e, month, tax_bp) == e.cents * 120000,
{
    assert(e.cents * 10000 * 12 == e.cents * 120000) by (nonlinear_arith);
}

/// A monthly, non-taxable bill event of X cents contributes exactly
/// -X — `-(X * 120000)` units — to every month.
pub proof fn lemma_monthly_bill(e: CashEvent, month: Date, tax_bp: int)
    requires
        e.frequency == Frequency::Monthly,
        e.type_ == Type::Bill,
        !e.is_taxable,
    ensures
        contribution_units(e, month, tax_bp) == -(e.cents * 120000),
{
    assert((-1) * (e.cents * 10000) * 12 == -(e.cents * 120000)) by (nonlinear_arith);
}

/// A taxable monthly income event of X cents at r basis points
/// contributes exactly X * (1 - r/10000) each month: in units,
/// `X * (10000 - r) * 12`.
pub proof fn lemma_taxable_income(e: CashEvent, month: Date, tax_bp: int)
    requires
        e.frequency == Frequency::Monthly,
        e.type_ == Type::Income,
        e.is_taxable,
    ensures
        contribution_units(e, month, tax_bp) == e.cents * (10000 - tax_bp) * 12,
{
}

/// A daily event contributes thirty times its taxed amount each month,
/// signed by its type: `sign * X * taxmul * 360` units.
pub proof fn lemma_daily(e: CashEvent, month: Date, tax_bp: int)
    requires
        e.frequency == Frequency::Daily,
    ensures
        contribution_units(e, month, tax_bp) == type_sign(e.type_) * (e.cents * tax_multiplier(
            e.is_taxable,
            tax_bp,
        )) * 360,
{
}

/// A yearly event contributes one twelfth of its taxed amount each
/// month, signed by its type — exactly `sign * X * taxmul` units.
pub proof fn lemma_yearly(e: CashEvent, month: Date, tax_bp: int)
    requires
        e.frequency == Frequency::Yearly,
    ensures
        contribution_units(e, month, tax_bp) == type_sign(e.type_) * (e.cents * tax_multiplier(
            e.is_taxable,
            tax_bp,
        )) * 1,
{
}

/// A dated one-time event contributes its full taxed, signed amount in
/// exactly the one matching year-month, and zero in every other month.
pub proof fn lemma_onetime_dated(e: CashEvent, d: Date, month: Date, tax_bp: int)
    requires
        e.frequency == Frequency::OneTime(Some(d)),
    ensures
        d.year == month.year && d.month == month.month ==> contribution_units(e, month, tax_bp)
            == type_sign(e.type_) * (e.cents * tax_multiplier(e.is_taxable, tax_bp)) * 12,
        !(d.year == month.year && d.month == month.month) ==> contribution_units(e, month, tax_bp)
            == 0,
{
}

/// An undated one-time event contributes zero to every month.
pub proof fn lemma_onetime_undated(e: CashEvent, month: Date, tax_bp: int)
    requires
        e.frequency == Frequency::OneTime(None),
    ensures
        contribution_units(e, month, tax_bp) == 0,
{
}

/// The sum of every event's contribution to the month holding `month`.
pub open spec fn net_units(events: Seq<CashEvent>, month: Date, tax_bp: int) -> int
    decreases events.len(),
{
    if events.len() == 0 {
        0
    } else {
        net_units(events.drop_last(), month, tax_bp) + contribution_units(
            events.last(),
            month,
            tax_bp,
        )
    }
}

pub proof fn lemma_net_units_bound(events: Seq<CashEvent>, month: Date, tax_bp: int)
    requires
        forall|i: int| 0 <= i < events.len() ==> (#[trigger] events[i]).wf(),
        0 <= tax_bp <= 10000,
    ensures
        -(events.len() * MAX_UNIT) <= net_units(events, month, tax_bp) <= events.len() * MAX_UNIT,
    decreases events.len(),
{
    if events.len() == 0 {
    } else {
        assert(forall|i: int|
            0 <= i < events.len() - 1 ==> (#[trigger] events.drop_last()[i]).wf());
        lemma_net_units_bound(events.drop_last(), month, tax_bp);
        lemma_contribution_bound(events.last(), month, tax_bp);
    }
}

/// The exact monthly net, in units, over all events.
pub fn get_monthly_amount(cash_events: &Vec<CashEvent>, date: &Date, tax_bp: u32) -> (r: i128)
    requires
        cash_events@.len() <= MAX_EVENTS,
        forall|i: int| 0 <= i < cash_events@.len() ==> (#[trigger] cash_events@[i]).wf(),
        tax_bp <= 10000,
    ensures
        r == net_units(cash_events@, *date, tax_bp as int),
{
    let mut sum: i128 = 0;
    let mut i: usize = 0;
    let n = cash_events.len();
    while i < n
        invariant
            n == cash_events@.len() <= MAX_EVENTS,
            i <= n,
            forall|k: int| 0 <= k < n ==> (#[trigger] cash_events@[k]).wf(),
            tax_bp <= 10000,
            sum == net_units(cash_events@.subrange(0, i as int), *date, tax_bp as int),
        decreases n - i,
    {
        proof {
            let pre = cash_events@.subrange(0, i as int);
            assert(forall|k: int| 0 <= k < pre.len() ==> (#[trigger] pre[k]).wf());
            lemma_net_units_bound(pre, *date, tax_bp as int);
            lemma_contribution_bound(cash_events@[i as int], *date, tax_bp as int);
            assert(pre.len() * MAX_UNIT <= MAX_EVENTS * MAX_UNIT) by (nonlinear_arith)
                requires
                    0 <= pre.len() <= MAX_EVENTS,
                    MAX_UNIT == 3_600_000_000_000_000_000_000,
                    MAX_EVENTS == 100_000_000_000,
            ;
        }
        let c = cash_events[i].get_monthly_amount(date, tax_bp);
        sum = sum + c;
        proof {
            let post = cash_events@.subrange(0, i + 1 as int);
            assert(post.drop_last() =~= cash_events@.subrange(0, i as int));
            assert(post.last() == cash_events@[i as int]);
        }
        i = i + 1;
    }
    proof {
        assert(cash_events@.subrange(0, n as int) =~= cash_events@);
    }
    sum
}

} // verus!
