//! Projection of monthly and cumulative net amounts over a horizon.

use vstd::prelude::*;

use crate::date::{
    add_months, add_months_spec, first_days_spec, get_first_day_of_months_between, Date, MAX_YEAR,
};
use crate::event::{
    get_monthly_amount, lemma_net_units_bound, net_units, CashEvent, MAX_EVENTS, MAX_UNIT,
};

verus! {

/// Largest magnitude, in units, of one month's net amount:
/// `MAX_EVENTS * MAX_UNIT`.
pub const MAX_NET_UNITS: i128 = 360_000_000_000_000_000_000_000_000_000_000;

/// Largest magnitude, in units, of a cumulative total: enough for
/// every month the supported year range can hold.
pub const MAX_TOTAL_UNITS: i128 = 43_200_000_000_000_000_000_000_000_000_000_000_000;

/// One output line of the projection: a month, its net amount and the
/// running total through it, both in units of 1/12,000,000 dollar.
#[derive(Clone, Copy, Debug, PartialEq, Eq)]
pub struct MonthRow {
    pub month: Date,
    pub net_units: i128,
    pub cumulative_units: i128,
}

/// The horizon end date cannot be formed: the target month has no such
/// day, or the target year is out of range.
#[derive(Clone, Copy, Debug, PartialEq, Eq)]
pub enum ReportError {
    InvalidEndDate,
}

/// The running total: the sum of the monthly nets of the first `n`
/// months.
pub open spec fn prefix_net(
    events: Seq<CashEvent>,
    months: Seq<Date>,
    tax_bp: int,
    n: int,
) -> int
    decreases n,
{
    if n <= 0 {
        0
    } else {
        prefix_net(events, months, tax_bp, n - 1) + net_units(events, months[n - 1], tax_bp)
    }
}

proof fn lemma_prefix_net_bound(events: Seq<CashEvent>, months: Seq<Date>, tax_bp: int, n: int)
    requires
        forall|i: int| 0 <= i < events.len() ==> (#[trigger] events[i]).wf(),
        0 <= tax_bp <= 10000,
        events.len() <= MAX_EVENTS,
        0 <= n <= months.len(),
    ensures
        -(n * MAX_NET_UNITS) <= prefix_net(events, months, tax_bp, n) <= n * MAX_NET_UNITS,
    decreases n,
{
    if n == 0 {
    } else {
        lemma_prefix_net_bound(events, months, tax_bp, n - 1);
        lemma_net_units_bound(events, months[n - 1], tax_bp);
        assert(events.len() * MAX_UNIT <= MAX_NET_UNITS) by (nonlinear_arith)
            requires
                0 <= events.len() <= MAX_EVENTS,
                MAX_UNIT == 3_600_000_000_000_000_000_000,
                MAX_EVENTS == 100_000_000_000,
                MAX_NET_UNITS == 360_000_000_000_000_000_000_000_000_000_000,
        ;
    }
}

/// One row per enumerated month, in order: the exact monthly net over
/// all events and the exact running total so far.
pub fn project(events: &Vec<CashEvent>, start: &Date, end: &Date, tax_bp: u32) -> (r: Vec<
    MonthRow,
>)
    requires
        start.valid(),
        end.valid(),
        events@.len() <= MAX_EVENTS,
        forall|i: int| 0 <= i < events@.len() ==> (#[trigger] events@[i]).wf(),
        tax_bp <= 10000,
    ensures
        r@.len() == first_days_spec(*start, *end).len(),
        forall|i: int|
            0 <= i < r@.len() ==> {
                let months = first_days_spec(*start, *end);
                &&& (#[trigger] r@[i]).month == months[i]
                &&& r@[i].net_units == net_units(events@, months[i], tax_bp as int)
                &&& r@[i].cumulative_units == prefix_net(events@, months, tax_bp as int, i + 1)
                &&& -MAX_TOTAL_UNITS <= r@[i].net_units <= MAX_TOTAL_UNITS
                &&& -MAX_TOTAL_UNITS <= r@[i].cumulative_units <= MAX_TOTAL_UNITS
            },
{
    let months = get_first_day_of_months_between(start, end);
    let ghost mseq = first_days_spec(*start, *end);
    proof {
        assert(mseq.len() <= 120000);
    }
    let n = months.len();
    let mut out: Vec<MonthRow> = Vec::new();
    let mut sum: i128 = 0;
    let mut i: usize = 0;
    while i < n
        invariant
            months@ == mseq,
            n == mseq.len() <= 120000,
            i <= n,
            events@.len() <= MAX_EVENTS,
            forall|k: int| 0 <= k < events@.len() ==> (#[trigger] events@[k]).wf(),
            tax_bp <= 10000,
            sum == prefix_net(events@, mseq, tax_bp as int, i as int),
            out@.len() == i,
            forall|k: int|
                0 <= k < i ==> {
                    &&& (#[trigger] out@[k]).month == mseq[k]
                    &&& out@[k].net_units == net_units(events@, mseq[k], tax_bp as int)
                    &&& out@[k].cumulative_units == prefix_net(events@, mseq, tax_bp as int, k + 1)
                    &&& -MAX_TOTAL_UNITS <= out@[k].net_units <= MAX_TOTAL_UNITS
                    &&& -MAX_TOTAL_UNITS <= out@[k].cumulative_units <= MAX_TOTAL_UNITS
                },
        decreases n - i,
    {
        let net = get_monthly_amount(events, &months[i], tax_bp);
        proof {
            lemma_prefix_net_bound(events@, mseq, tax_bp as int, i as int);
            lemma_prefix_net_bound(events@, mseq, tax_bp as int, i + 1);
            lemma_net_units_bound(events@, mseq[i as int], tax_bp as int);
            assert(events@.len() * MAX_UNIT <= MAX_NET_UNITS) by (nonlinear_arith)
                requires
                    0 <= events@.len() <= MAX_EVENTS,
                    MAX_UNIT == 3_600_000_000_000_000_000_000,
                    MAX_EVENTS == 100_000_000_000,
                    MAX_NET_UNITS == 360_000_000_000_000_000_000_000_000_000_000,
            ;
            assert((i + 1) * MAX_NET_UNITS <= 120000 * MAX_NET_UNITS) by (nonlinear_arith)
                requires
                    0 <= i + 1 <= 120000,
                    MAX_NET_UNITS > 0,
            ;
        }
        sum = sum + net;
        out.push(MonthRow { month: months[i], net_units: net, cumulative_units: sum });
        i = i + 1;
    }
    out
}

/// The full projection from a start date over a horizon of whole
/// months: the end date keeps the start's day-of-month (no clamping),
/// and one row is produced for every month from the start's through
/// the end's.
pub fn run_report(events: &Vec<CashEvent>, today: &Date, months: u32, tax_bp: u32) -> (r: Result<
    Vec<MonthRow>,
    ReportError,
>)
    requires
        today.valid(),
        events@.len() <= MAX_EVENTS,
        forall|i: int| 0 <= i < events@.len() ==> (#[trigger] events@[i]).wf(),
        tax_bp <= 10000,
    ensures
        match r {
            Ok(rows) => add_months_spec(*today, months as int) matches Some(end) && {
                let mseq = first_days_spec(*today, end);
                &&& rows@.len() == mseq.len()
                &&& forall|i: int|
                    0 <= i < rows@.len() ==> {
                        &&& (#[trigger] rows@[i]).month == mseq[i]
                        &&& rows@[i].net_units == net_units(events@, mseq[i], tax_bp as int)
                        &&& rows@[i].cumulative_units == prefix_net(
                            events@,
                            mseq,
                            tax_bp as int,
                            i + 1,
                        )
                    }
            },
            Err(e) => add_months_spec(*today, months as int) is None && e
                == ReportError::InvalidEndDate,
        },
{
    let end = match add_months(today, months) {
        Some(d) => d,
        None => { return Err(ReportError::InvalidEndDate) },
    };
    Ok(project(events, today, &end, tax_bp))
}

/// The whole number of cents nearest to `u` units, ties rounded away
/// from zero.
pub open spec fn cents_nearest(u: int) -> int {
    if u >= 0 {
        (u + 60000) / 120000
    } else {
        -(((-u) + 60000) / 120000)
    }
}

/// Rounding to cents lands within half a cent of the exact value.
pub proof fn lemma_cents_nearest_close(u: int)
    ensures
        -60000 <= 120000 * cents_nearest(u) - u <= 60000,
{
    let a = if u >= 0 {
        u
    } else {
        -u
    };
    vstd::arithmetic::div_mod::lemma_fundamental_div_mod(a + 60000, 120000);
    vstd::arithmetic::div_mod::lemma_mod_bound(a + 60000, 120000);
}

pub fn round_units_to_cents(u: i128) -> (r: i128)
    requires
        -MAX_TOTAL_UNITS <= u <= MAX_TOTAL_UNITS,
    ensures
        r == cents_nearest(u as int),
        -1_000_000_000_000_000_000_000_000_000_000_000 <= r
            <= 1_000_000_000_000_000_000_000_000_000_000_000,
{
    let a: i128 = if u >= 0 {
        u
    } else {
        -u
    };
    let q: i128 = (a + 60000) / 120000;
    proof {
        vstd::arithmetic::div_mod::lemma_div_is_ordered(
            a + 60000,
            MAX_TOTAL_UNITS + 60000,
            120000,
        );
        vstd::arithmetic::div_mod::lemma_div_pos_is_pos(a + 60000, 120000);
    }
    if u >= 0 {
        q
    } else {
        -q
    }
}

} // verus!
