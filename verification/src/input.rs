//! Loading cash events from CSV bytes: a trusted reading of the table
//! itself, then fully verified header lookup and row parsing.

use vstd::prelude::*;
use crate::event::{freq_spec, type_spec, CashEvent, Frequency, Type};
use crate::parse::{bool_token_spec, cents_token_spec, parse_bool, parse_cents, str_eq};

verus! {

/// The records a CSV byte stream holds (every row, the header row
/// included), or nothing when the bytes are not a well-formed CSV
/// table.
pub uninterp spec fn csv_rows_of(data: Seq<u8>) -> Option<Seq<Seq<Seq<char>>>>;

#[verifier::external_type_specification]
#[verifier::external_body]
pub struct ExCsvError(csv::Error);

/// Relies on csv::ReaderBuilder and csv::Reader: reading every record
/// of a CSV byte stream is a function of the bytes alone, and fails
/// exactly when the bytes are not a well-formed table (ragged rows,
/// broken quoting, bad UTF-8).
#[verifier::external_body]
fn csv_rows(data: &[u8]) -> (r: Result<Vec<Vec<String>>, csv::Error>)
    ensures
        match r {
            Ok(rows) => csv_rows_of(data@) == Some(rows.deep_view()),
            Err(_) => csv_rows_of(data@) is None,
        },
{
    let mut rdr = csv::ReaderBuilder::new().has_headers(false).from_reader(data);
    let mut out: Vec<Vec<String>> = Vec::new();
    for rec in rdr.records() {
        match rec {
            Ok(r) => out.push(r.iter().map(|f| f.to_string()).collect()),
            Err(e) => return Err(e),
        }
    }
    Ok(out)
}

/// Index of the first field equal to `name`, or `h.len()` when none
/// is.
pub open spec fn find_field(h: Seq<Seq<char>>, name: Seq<char>) -> int
    decreases h.len(),
{
    if h.len() == 0 {
        0
    } else if h[0] == name {
        0
    } else {
        1 + find_field(h.subrange(1, h.len() as int), name)
    }
}

proof fn lemma_find_field_is(h: Seq<Seq<char>>, name: Seq<char>, i: int)
    requires
        0 <= i <= h.len(),
        forall|j: int| 0 <= j < i ==> h[j] != name,
        i < h.len() ==> h[i] == name,
    ensures
        find_field(h, name) == i,
    decreases h.len(),
{
    if h.len() == 0 {
    } else if h[0] == name {
        assert(i == 0);
    } else {
        let t = h.subrange(1, h.len() as int);
        assert forall|j: int| 0 <= j < i - 1 implies t[j] != name by {
            assert(t[j] == h[j + 1]);
        }
        lemma_find_field_is(t, name, i - 1);
    }
}

fn find_col(h: &Vec<String>, name: &str) -> (r: usize)
    ensures
        r == find_field(h.deep_view(), name@),
        r <= h@.len(),
{
    let n = h.len();
    let mut i: usize = 0;
    while i < n
        invariant
            n == h@.len(),
            i <= n,
            forall|j: int| 0 <= j < i ==> h.deep_view()[j] != name@,
        decreases n - i,
    {
        proof {
            assert(h.deep_view()[i as int] == h@[i as int]@);
        }
        if str_eq(h[i].as_str(), name) {
            proof {
                lemma_find_field_is(h.deep_view(), name@, i as int);
            }
            return i;
        }
        i = i + 1;
    }
    proof {
        lemma_find_field_is(h.deep_view(), name@, n as int);
    }
    n
}

/// Whether a header row names all five required columns.
pub open spec fn header_ok(h: Seq<Seq<char>>) -> bool {
    &&& find_field(h, "name"@) < h.len()
    &&& find_field(h, "usd"@) < h.len()
    &&& find_field(h, "frequency"@) < h.len()
    &&& find_field(h, "type_"@) < h.len()
    &&& find_field(h, "is_taxable"@) < h.len()
}

/// Why one row failed to parse.
#[derive(Clone, Copy, Debug, PartialEq, Eq)]
pub enum ParseError {
    MissingField,
    Amount,
    Frequency,
    TypeTag,
    Taxable,
}

/// Why a whole load failed.
#[derive(Clone, Copy, Debug, PartialEq, Eq)]
pub enum LoadError {
    Csv,
    MissingColumn,
    BadRow(ParseError),
}

/// The first fault of a data row against a header, if any: a column
/// index past the row's end, then each field in turn.
pub open spec fn row_error_spec(row: Seq<Seq<char>>, h: Seq<Seq<char>>) -> Option<ParseError> {
    if !(find_field(h, "name"@) < row.len() && find_field(h, "usd"@) < row.len() && find_field(
        h,
        "frequency"@,
    ) < row.len() && find_field(h, "type_"@) < row.len() && find_field(h, "is_taxable"@)
        < row.len()) {
        Some(ParseError::MissingField)
    } else if cents_token_spec(row[find_field(h, "usd"@)]) is None {
        Some(ParseError::Amount)
    } else if freq_spec(row[find_field(h, "frequency"@)]) is None {
        Some(ParseError::Frequency)
    } else if type_spec(row[find_field(h, "type_"@)]) is None {
        Some(ParseError::TypeTag)
    } else if bool_token_spec(row[find_field(h, "is_taxable"@)]) is None {
        Some(ParseError::Taxable)
    } else {
        None
    }
}

/// The event a well-formed data row denotes, field by field.
pub open spec fn event_matches(e: CashEvent, row: Seq<Seq<char>>, h: Seq<Seq<char>>) -> bool {
    &&& row_error_spec(row, h) is None
    &&& e.name@ == row[find_field(h, "name"@)]
    &&& Some(e.cents) == cents_token_spec(row[find_field(h, "usd"@)])
    &&& Some(e.frequency) == freq_spec(row[find_field(h, "frequency"@)])
    &&& Some(e.type_) == type_spec(row[find_field(h, "type_"@)])
    &&& Some(e.is_taxable) == bool_token_spec(row[find_field(h, "is_taxable"@)])
}

fn parse_row(
    row: &Vec<String>,
    ni: usize,
    ui: usize,
    fi: usize,
    ti: usize,
    bi: usize,
    Ghost(h): Ghost<Seq<Seq<char>>>,
) -> (r: Result<CashEvent, ParseError>)
    requires
        ni == find_field(h, "name"@),
        ui == find_field(h, "usd"@),
        fi == find_field(h, "frequency"@),
        ti == find_field(h, "type_"@),
        bi == find_field(h, "is_taxable"@),
    ensures
        match r {
            Ok(e) => event_matches(e, row.deep_view(), h) && e.wf(),
            Err(pe) => row_error_spec(row.deep_view(), h) == Some(pe),
        },
{
    let n = row.len();
    if !(ni < n && ui < n && fi < n && ti < n && bi < n) {
        return Err(ParseError::MissingField);
    }
    proof {
        assert(row.deep_view()[ni as int] == row@[ni as int]@);
        assert(row.deep_view()[ui as int] == row@[ui as int]@);
        assert(row.deep_view()[fi as int] == row@[fi as int]@);
        assert(row.deep_view()[ti as int] == row@[ti as int]@);
        assert(row.deep_view()[bi as int] == row@[bi as int]@);
    }
    let cents = match parse_cents(row[ui].as_str()) {
        Some(c) => c,
        None => { return Err(ParseError::Amount) },
    };
    let frequency = match Frequency::from_str(row[fi].as_str()) {
        Ok(f) => f,
        Err(_) => { return Err(ParseError::Frequency) },
    };
    let type_ = match Type::from_str(row[ti].as_str()) {
        Ok(t) => t,
        Err(_) => { return Err(ParseError::TypeTag) },
    };
    let is_taxable = match parse_bool(row[bi].as_str()) {
        Some(b) => b,
        None => { return Err(ParseError::Taxable) },
    };
    let name = row[ni].clone();
    Ok(CashEvent { name, cents, frequency, type_, is_taxable })
}

/// Loads every cash event of a CSV table: the first row is the
/// header, every later row one event.  The whole load fails on the
/// first faulty row; a table with no data rows loads as empty.
pub fn load_events(data: &[u8]) -> (r: Result<Vec<CashEvent>, LoadError>)
    ensures
        match r {
            Ok(es) => csv_rows_of(data@) matches Some(rows) && {
                &&& (rows.len() <= 1 ==> es@.len() == 0)
                &&& (rows.len() > 1 ==> {
                    &&& header_ok(rows[0])
                    &&& es@.len() == rows.len() - 1
                    &&& forall|i: int|
                        0 <= i < es@.len() ==> event_matches(
                            #[trigger] es@[i],
                            rows[i + 1],
                            rows[0],
                        ) && es@[i].wf()
                })
            },
            Err(e) => match e {
                LoadError::Csv => csv_rows_of(data@) is None,
                LoadError::MissingColumn => csv_rows_of(data@) matches Some(rows) && rows.len() > 1
                    && !header_ok(rows[0]),
                LoadError::BadRow(pe) => csv_rows_of(data@) matches Some(rows) && rows.len() > 1
                    && header_ok(rows[0]) && exists|i: int|
                    1 <= i < rows.len() && #[trigger] row_error_spec(rows[i], rows[0]) == Some(pe)
                        && (forall|j: int|
                        1 <= j < i ==> row_error_spec(#[trigger] rows[j], rows[0]) is None),
            },
        },
{
    let rows = match csv_rows(data) {
        Ok(r) => r,
        Err(_) => { return Err(LoadError::Csv) },
    };
    let ghost grows = rows.deep_view();
    let nrows = rows.len();
    if nrows <= 1 {
        return Ok(Vec::new());
    }
    let ni = find_col(&rows[0], "name");
    let ui = find_col(&rows[0], "usd");
    let fi = find_col(&rows[0], "frequency");
    let ti = find_col(&rows[0], "type_");
    let bi = find_col(&rows[0], "is_taxable");
    let hl = rows[0].len();
    proof {
        assert(grows[0] == rows@[0].deep_view());
    }
    if ni >= hl || ui >= hl || fi >= hl || ti >= hl || bi >= hl {
        return Err(LoadError::MissingColumn);
    }
    let mut es: Vec<CashEvent> = Vec::new();
    let mut i: usize = 1;
    while i < nrows
        invariant
            grows == rows.deep_view(),
            csv_rows_of(data@) == Some(grows),
            nrows == rows@.len(),
            grows.len() == nrows,
            1 < nrows,
            1 <= i <= nrows,
            es@.len() == i - 1,
            header_ok(grows[0]),
            ni == find_field(grows[0], "name"@),
            ui == find_field(grows[0], "usd"@),
            fi == find_field(grows[0], "frequency"@),
            ti == find_field(grows[0], "type_"@),
            bi == find_field(grows[0], "is_taxable"@),
            forall|k: int|
                0 <= k < i - 1 ==> event_matches(#[trigger] es@[k], grows[k + 1], grows[0])
                    && es@[k].wf(),
        decreases nrows - i,
    {
        proof {
            assert(grows[i as int] == rows@[i as int].deep_view());
        }
        match parse_row(&rows[i], ni, ui, fi, ti, bi, Ghost(grows[0])) {
            Ok(e) => es.push(e),
            Err(pe) => {
                proof {
                    assert(grows.len() == nrows);
                    assert forall|j: int| 1 <= j < i implies row_error_spec(
                        #[trigger] grows[j],
                        grows[0],
                    ) is None by {
                        assert(event_matches(es@[j - 1], grows[j], grows[0]));
                    }
                    assert(1 <= i < grows.len() && row_error_spec(grows[i as int], grows[0])
                        == Some(pe));
                }
                return Err(LoadError::BadRow(pe));
            },
        }
        i = i + 1;
    }
    Ok(es)
}

} // verus!
