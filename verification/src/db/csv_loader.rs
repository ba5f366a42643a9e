//! Loading projects and forecasts from CSV text into the repository.
//!
//! The forecasts file has a row of month dates, a row of column headers in
//! which six columns are named "Labor Rev Committ", then one row per
//! project. The projects file has a row of column headers, then one row per
//! project; a row whose project id is "code" repeats the field codes and is
//! skipped.
use vstd::prelude::*;
use crate::db::csv_reader::{csv_positions, csv_records, read_csv_records, records_view};
use crate::db::repositories::forecast_repository::{
    forecast_ids, last_forecast_with_id, law_upsert_forecasts_twice, lemma_upsert_forecasts_lookup,
    lookup_forecast, upsert_forecast, upsert_forecasts, ForecastRepositoryTrait,
};
use crate::db::repositories::keyed::keys_distinct;
use crate::db::repositories::in_memory_repository::InMemoryRepository;
use crate::db::repositories::project_repository::{
    last_project_with_id, law_upsert_projects_twice, lemma_upsert_projects_lookup, lookup_project,
    project_ids, upsert_project, upsert_projects, ProjectRepositoryTrait,
};
use crate::models::date::Date;
use crate::models::forecast::{Forecast, ForecastView};
use crate::models::project::{Project, ProjectView};
use crate::parse::{amount_cents_spec, parse_amount_chars};
use crate::text::{
    chars_of, is_blank, lowercase, str_eq, string_from_chars, strings_view, to_lowercase,
    trim_spec,
};
use crate::utils::utils::{
    date_from_dd_mm_yyyy, decimal_digits, parse_date_from_dd_mm_yyyy, push_decimal_digits,
};

verus! {

/// Why loading a CSV file failed.
#[derive(Debug)]
pub enum LoadError {
    /// The CSV reader could not read a record; its message.
    Csv(String),
    /// The forecasts file has no row of column headers.
    MissingHeaderRow,
    /// The forecasts file has fewer than six "Labor Rev Committ" columns.
    MissingLaborRevenueColumns,
    /// A project row lacks a required column: the column's name, and the
    /// row's position (record, line, byte) when known.
    MissingField(String, Option<(u64, u64, u64)>),
    /// A project column is named twice: the column's name, and the position
    /// of the row being read.
    DuplicateField(String, Option<(u64, u64, u64)>),
    /// A project row read by position (the header could not be read) has
    /// fewer than ten fields: how many it has, and its position.
    InvalidLength(usize, Option<(u64, u64, u64)>),
}

/// The value of a `LoadError`.
pub enum LoadErrorView {
    Csv(Seq<char>),
    MissingHeaderRow,
    MissingLaborRevenueColumns,
    MissingField(Seq<char>, Option<(u64, u64, u64)>),
    DuplicateField(Seq<char>, Option<(u64, u64, u64)>),
    InvalidLength(usize, Option<(u64, u64, u64)>),
}

impl View for LoadError {
    type V = LoadErrorView;

    open spec fn view(&self) -> LoadErrorView {
        match self {
            LoadError::Csv(m) => LoadErrorView::Csv(m@),
            LoadError::MissingHeaderRow => LoadErrorView::MissingHeaderRow,
            LoadError::MissingLaborRevenueColumns => LoadErrorView::MissingLaborRevenueColumns,
            LoadError::MissingField(f, p) => LoadErrorView::MissingField(f@, *p),
            LoadError::DuplicateField(f, p) => LoadErrorView::DuplicateField(f@, *p),
            LoadError::InvalidLength(n, p) => LoadErrorView::InvalidLength(*n, *p),
        }
    }
}

/// The text of a literal.
pub open spec fn lit(s: &str) -> Seq<char> {
    s@
}

/// How the message of an error met while reading a row into a project
/// starts: "CSV deserialize error: ", with the row's record, line and byte
/// when known.
pub open spec fn deserialize_prefix(pos: Option<(u64, u64, u64)>) -> Seq<char> {
    match pos {
        None => lit("CSV deserialize error: "),
        Some(p) => lit("CSV deserialize error: record ") + decimal_digits(p.0 as nat) + lit(
            " (line: ",
        ) + decimal_digits(p.1 as nat) + lit(", byte: ") + decimal_digits(p.2 as nat) + lit(
            "): ",
        ),
    }
}

/// The message of an error, as the user sees it.
pub open spec fn error_message(e: LoadErrorView) -> Seq<char> {
    match e {
        LoadErrorView::Csv(m) => m,
        LoadErrorView::MissingHeaderRow => lit("Missing header row in CSV"),
        LoadErrorView::MissingLaborRevenueColumns => lit(
            "CSV file must have at least 6 'Labor Rev Committ' columns",
        ),
        LoadErrorView::MissingField(f, p) => deserialize_prefix(p) + lit("missing field `") + f
            + lit("`"),
        LoadErrorView::DuplicateField(f, p) => deserialize_prefix(p) + lit("duplicate field `")
            + f + lit("`"),
        LoadErrorView::InvalidLength(n, p) => deserialize_prefix(p) + lit("invalid length ")
            + decimal_digits(n as nat) + lit(", expected struct Project with 10 elements"),
    }
}

/// Appends the decimal digits of `n`.
fn append_decimal(s: &mut String, n: u64)
    ensures
        final(s)@ == old(s)@ + decimal_digits(n as nat),
{
    let mut ds: Vec<char> = Vec::new();
    push_decimal_digits(n as u128, &mut ds);
    assert(ds@ =~= decimal_digits(n as nat));
    let t = string_from_chars(&ds);
    s.append(t.as_str());
}

/// The start of the message of an error met while reading a row.
fn deserialize_prefix_text(pos: Option<(u64, u64, u64)>) -> (r: String)
    ensures
        r@ == deserialize_prefix(pos),
{
    match pos {
        None => "CSV deserialize error: ".to_owned(),
        Some(p) => {
            let mut r = "CSV deserialize error: record ".to_owned();
            append_decimal(&mut r, p.0);
            r.append(" (line: ");
            append_decimal(&mut r, p.1);
            r.append(", byte: ");
            append_decimal(&mut r, p.2);
            r.append("): ");
            r
        },
    }
}

impl LoadError {
    /// The message of the error.
    pub fn message(&self) -> (r: String)
        ensures
            r@ == error_message(self@),
    {
        match self {
            LoadError::Csv(m) => m.clone(),
            LoadError::MissingHeaderRow => "Missing header row in CSV".to_owned(),
            LoadError::MissingLaborRevenueColumns => {
                "CSV file must have at least 6 'Labor Rev Committ' columns".to_owned()
            },
            LoadError::MissingField(f, p) => {
                let mut r = deserialize_prefix_text(*p);
                r.append("missing field `");
                r.append(f.as_str());
                r.append("`");
                r
            },
            LoadError::DuplicateField(f, p) => {
                let mut r = deserialize_prefix_text(*p);
                r.append("duplicate field `");
                r.append(f.as_str());
                r.append("`");
                r
            },
            LoadError::InvalidLength(n, p) => {
                let mut r = deserialize_prefix_text(*p);
                r.append("invalid length ");
                append_decimal(&mut r, *n as u64);
                r.append(", expected struct Project with 10 elements");
                r
            },
        }
    }
}

// ----- forecasts -----

/// The header of the labor revenue commit columns.
pub open spec fn labor_rev_header() -> Seq<char> {
    lit("Labor Rev Committ")
}

/// The indices of the header fields named "Labor Rev Committ", in order.
pub open spec fn labor_rev_positions(header: Seq<Seq<char>>) -> Seq<int>
    decreases header.len(),
{
    if header.len() == 0 {
        Seq::empty()
    } else {
        let rest = labor_rev_positions(header.drop_last());
        if header.last() == labor_rev_header() {
            rest.push(header.len() - 1)
        } else {
            rest
        }
    }
}

/// Field `i` of a record, or `default` when the record has no such field.
pub open spec fn field_or(fields: Seq<Seq<char>>, i: int, default: Seq<char>) -> Seq<char> {
    if 0 <= i < fields.len() {
        fields[i]
    } else {
        default
    }
}

/// The amount in cents of field `i`; 0 when the field is missing or is not
/// an amount.
pub open spec fn amount_field(fields: Seq<Seq<char>>, i: int) -> i64 {
    match amount_cents_spec(field_or(fields, i, lit("0"))) {
        Some(v) => v,
        None => 0,
    }
}

/// The date of field `i` ("dd/mm/yyyy"); 1970-01-01 when the field is
/// missing or is not such a date.
pub open spec fn date_field(fields: Seq<Seq<char>>, i: int) -> (i32, u32, u32) {
    match date_from_dd_mm_yyyy(field_or(fields, i, Seq::empty())) {
        Some(d) => d,
        None => (1970, 1, 1),
    }
}

/// Whether a forecast data row holds a forecast: its project id (field 3)
/// is not blank and is not the header text "ID".
pub open spec fn forecast_row_kept(fields: Seq<Seq<char>>) -> bool {
    let id = field_or(fields, 3, Seq::empty());
    trim_spec(id).len() > 0 && id != lit("ID")
}

/// The forecast of a data row: fields 0 to 9 in column order, and the six
/// monthly commits from the labor revenue columns at `positions`.
pub open spec fn forecast_of_row(fields: Seq<Seq<char>>, positions: Seq<int>) -> ForecastView {
    ForecastView {
        sold_to_company: field_or(fields, 0, Seq::empty()),
        project_manager: field_or(fields, 1, Seq::empty()),
        project_name: field_or(fields, 2, Seq::empty()),
        project_id: field_or(fields, 3, Seq::empty()),
        class: field_or(fields, 4, Seq::empty()),
        start_date: date_field(fields, 5),
        finish_date: date_field(fields, 6),
        contract_total_value: amount_field(fields, 7),
        contract_remaining_value: amount_field(fields, 8),
        currency: field_or(fields, 9, Seq::empty()),
        month1_labor_revenue_commit: amount_field(fields, positions[0]),
        month2_labor_revenue_commit: amount_field(fields, positions[1]),
        month3_labor_revenue_commit: amount_field(fields, positions[2]),
        month4_labor_revenue_commit: amount_field(fields, positions[3]),
        month5_labor_revenue_commit: amount_field(fields, positions[4]),
        month6_labor_revenue_commit: amount_field(fields, positions[5]),
    }
}

/// Stores the forecasts of the data rows `rows` in order: the forecasts
/// after them, and how many rows were stored. Rows that the reader could
/// not read, and rows without a forecast, are skipped.
pub open spec fn store_forecast_rows(
    entries: Seq<ForecastView>,
    rows: Seq<Result<Seq<Seq<char>>, Seq<char>>>,
    positions: Seq<int>,
) -> (Seq<ForecastView>, nat)
    decreases rows.len(),
{
    if rows.len() == 0 {
        (entries, 0)
    } else {
        let (e, n) = store_forecast_rows(entries, rows.drop_last(), positions);
        match rows.last() {
            Ok(fields) => if forecast_row_kept(fields) {
                (upsert_forecast(e, forecast_of_row(fields, positions)), n + 1)
            } else {
                (e, n)
            },
            Err(_) => (e, n),
        }
    }
}

/// What loading the forecast records gives: the forecasts after loading
/// and the number of rows stored, or the error.
pub open spec fn load_forecasts_spec(
    entries: Seq<ForecastView>,
    records: Seq<Result<Seq<Seq<char>>, Seq<char>>>,
) -> Result<(Seq<ForecastView>, nat), LoadErrorView> {
    if records.len() < 2 {
        Err(LoadErrorView::MissingHeaderRow)
    } else {
        match records[1] {
            Err(m) => Err(LoadErrorView::Csv(m)),
            Ok(header) => {
                let positions = labor_rev_positions(header);
                if positions.len() < 6 {
                    Err(LoadErrorView::MissingLaborRevenueColumns)
                } else {
                    Ok(store_forecast_rows(entries, records.skip(2), positions))
                }
            },
        }
    }
}

/// The forecasts that storing the data rows `rows` stores, in order.
pub open spec fn stored_forecasts(
    rows: Seq<Result<Seq<Seq<char>>, Seq<char>>>,
    positions: Seq<int>,
) -> Seq<ForecastView>
    decreases rows.len(),
{
    if rows.len() == 0 {
        Seq::empty()
    } else {
        let q = stored_forecasts(rows.drop_last(), positions);
        match rows.last() {
            Ok(fields) => if forecast_row_kept(fields) {
                q.push(forecast_of_row(fields, positions))
            } else {
                q
            },
            Err(_) => q,
        }
    }
}

/// Storing forecast rows stores the batch of their forecasts, whatever was
/// stored before.
proof fn lemma_store_forecast_rows_batch(
    entries: Seq<ForecastView>,
    rows: Seq<Result<Seq<Seq<char>>, Seq<char>>>,
    positions: Seq<int>,
)
    ensures
        store_forecast_rows(entries, rows, positions) == (
            upsert_forecasts(entries, stored_forecasts(rows, positions)),
            stored_forecasts(rows, positions).len(),
        ),
    decreases rows.len(),
{
    if rows.len() > 0 {
        lemma_store_forecast_rows_batch(entries, rows.drop_last(), positions);
        let q0 = stored_forecasts(rows.drop_last(), positions);
        if let Ok(fields) = rows.last() {
            if forecast_row_kept(fields) {
                assert(q0.push(forecast_of_row(fields, positions)).drop_last() =~= q0);
            }
        }
    }
}

/// Loading the same forecasts file a second time changes nothing: the
/// same forecasts are stored and the same number of rows is reported.
pub proof fn law_load_forecasts_twice(
    entries: Seq<ForecastView>,
    records: Seq<Result<Seq<Seq<char>>, Seq<char>>>,
)
    requires
        keys_distinct(forecast_ids(entries)),
    ensures
        load_forecasts_spec(entries, records) matches Ok((loaded, n)) ==> load_forecasts_spec(
            loaded,
            records,
        ) == load_forecasts_spec(entries, records),
{
    if records.len() >= 2 {
        if let Ok(header) = records[1] {
            let positions = labor_rev_positions(header);
            let rows = records.skip(2);
            let q = stored_forecasts(rows, positions);
            lemma_store_forecast_rows_batch(entries, rows, positions);
            lemma_store_forecast_rows_batch(upsert_forecasts(entries, q), rows, positions);
            law_upsert_forecasts_twice(entries, q);
        }
    }
}

/// Whether `row` is a kept forecast row with the project id of `fields`.
pub open spec fn repeats_forecast_id(
    row: Result<Seq<Seq<char>>, Seq<char>>,
    fields: Seq<Seq<char>>,
) -> bool {
    match row {
        Ok(g) => forecast_row_kept(g) && field_or(g, 3, Seq::empty()) == field_or(
            fields,
            3,
            Seq::empty(),
        ),
        Err(_) => false,
    }
}

/// The last of the stored forecasts with the id of kept row `j` is that
/// row's forecast when no later kept row repeats the id.
proof fn lemma_last_stored_forecast(
    rows: Seq<Result<Seq<Seq<char>>, Seq<char>>>,
    positions: Seq<int>,
    j: int,
    fields: Seq<Seq<char>>,
)
    requires
        0 <= j < rows.len(),
        rows[j] == Ok::<Seq<Seq<char>>, Seq<char>>(fields),
        forecast_row_kept(fields),
        forall|k: int| j < k < rows.len() ==> !repeats_forecast_id(#[trigger] rows[k], fields),
    ensures
        last_forecast_with_id(stored_forecasts(rows, positions), field_or(fields, 3, Seq::empty()))
            == Some(forecast_of_row(fields, positions)),
    decreases rows.len(),
{
    let q0 = stored_forecasts(rows.drop_last(), positions);
    let id = field_or(fields, 3, Seq::empty());
    if j == rows.len() - 1 {
        assert(q0.push(forecast_of_row(fields, positions)).last() == forecast_of_row(
            fields,
            positions,
        ));
    } else {
        let r0 = rows.drop_last();
        assert(r0[j] == rows[j]);
        assert forall|k: int| j < k < r0.len() implies !repeats_forecast_id(
            #[trigger] r0[k],
            fields,
        ) by {
            assert(r0[k] == rows[k]);
        }
        lemma_last_stored_forecast(r0, positions, j, fields);
        let last = rows[rows.len() - 1];
        if let Ok(g) = last {
            if forecast_row_kept(g) {
                let f = forecast_of_row(g, positions);
                assert(q0.push(f).drop_last() =~= q0);
                assert(f.project_id != id);
            }
        }
    }
}

/// After loading a forecasts file, the forecast read under the id of a
/// kept data row (its project id neither blank nor "ID") that no later kept
/// row repeats is that row's forecast: fields 0 to 9 in column order, the
/// dates parsed as "dd/mm/yyyy" with 1970-01-01 for an empty or malformed
/// date, the monthly commits from the labor revenue columns. Such a date
/// neither fails the load nor skips the row.
pub proof fn law_load_forecasts_row_stored(
    entries: Seq<ForecastView>,
    records: Seq<Result<Seq<Seq<char>>, Seq<char>>>,
    header: Seq<Seq<char>>,
    j: int,
    fields: Seq<Seq<char>>,
)
    requires
        keys_distinct(forecast_ids(entries)),
        2 <= j < records.len(),
        records[1] == Ok::<Seq<Seq<char>>, Seq<char>>(header),
        labor_rev_positions(header).len() >= 6,
        records[j] == Ok::<Seq<Seq<char>>, Seq<char>>(fields),
        forecast_row_kept(fields),
        forall|k: int|
            j < k < records.len() ==> !repeats_forecast_id(#[trigger] records[k], fields),
    ensures
        load_forecasts_spec(entries, records) matches Ok((loaded, n)) && lookup_forecast(
            loaded,
            field_or(fields, 3, Seq::empty()),
        ) == Some(forecast_of_row(fields, labor_rev_positions(header))),
        forecast_of_row(fields, labor_rev_positions(header)).start_date == date_field(fields, 5),
        forecast_of_row(fields, labor_rev_positions(header)).finish_date == date_field(fields, 6),
{
    let positions = labor_rev_positions(header);
    let rows = records.skip(2);
    assert(rows[j - 2] == records[j]);
    assert forall|k: int| j - 2 < k < rows.len() implies !repeats_forecast_id(
        #[trigger] rows[k],
        fields,
    ) by {
        assert(rows[k] == records[k + 2]);
    }
    lemma_last_stored_forecast(rows, positions, j - 2, fields);
    lemma_store_forecast_rows_batch(entries, rows, positions);
    lemma_upsert_forecasts_lookup(entries, stored_forecasts(rows, positions));
    let loaded = upsert_forecasts(entries, stored_forecasts(rows, positions));
    assert(lookup_forecast(loaded, field_or(fields, 3, Seq::empty())) == Some(
        forecast_of_row(fields, positions),
    ));
}

/// The indices of the fields of `header` named "Labor Rev Committ".
fn find_labor_rev_positions(header: &Vec<String>) -> (r: Vec<usize>)
    ensures
        r@.map_values(|i: usize| i as int) == labor_rev_positions(strings_view(header@)),
        forall|k: int| 0 <= k < r@.len() ==> r@[k] < header@.len(),
{
    let ghost hv = strings_view(header@);
    let mut r: Vec<usize> = Vec::new();
    let mut i: usize = 0;
    proof {
        reveal_strlit("Labor Rev Committ");
    }
    while i < header.len()
        invariant
            i <= header@.len(),
            hv == strings_view(header@),
            r@.map_values(|i: usize| i as int) == labor_rev_positions(hv.take(i as int)),
            forall|k: int| 0 <= k < r@.len() ==> r@[k] < i,
        decreases header@.len() - i,
    {
        assert(hv.take(i + 1).drop_last() == hv.take(i as int));
        assert(hv.take(i + 1).last() == header@[i as int]@);
        if str_eq(header[i].as_str(), "Labor Rev Committ") {
            r.push(i);
            assert(r@.map_values(|i: usize| i as int) =~= labor_rev_positions(
                hv.take(i as int),
            ).push(i as int));
        }
        i = i + 1;
    }
    assert(hv.take(header@.len() as int) == hv);
    r
}

/// Field `i` of a record, or `default` when it has no such field.
fn field_or_default<'a>(fields: &'a Vec<String>, i: usize, default: &'a str) -> (r: &'a str)
    ensures
        r@ == field_or(strings_view(fields@), i as int, default@),
{
    if i < fields.len() {
        fields[i].as_str()
    } else {
        default
    }
}

/// The amount in cents of field `i`, 0 when missing or not an amount.
fn amount_of_field(fields: &Vec<String>, i: usize) -> (r: i64)
    ensures
        r == amount_field(strings_view(fields@), i as int),
{
    let text = field_or_default(fields, i, "0");
    match parse_amount_chars(&chars_of(text)) {
        Some(v) => v,
        None => 0,
    }
}

/// The date of field `i`, 1970-01-01 when missing or not a date.
fn date_of_field(fields: &Vec<String>, i: usize) -> (r: Date)
    ensures
        (r.spec_year(), r.spec_month(), r.spec_day()) == date_field(strings_view(fields@), i as int),
{
    let text = field_or_default(fields, i, "");
    proof {
        reveal_strlit("");
        assert(""@ =~= Seq::<char>::empty());
    }
    match parse_date_from_dd_mm_yyyy(text) {
        Some(d) => d,
        None => {
            assert(crate::models::date::is_valid_date(1970, 1, 1));
            match Date::from_ymd_opt(1970, 1, 1) {
                Some(d) => d,
                None => {
                    assert(false);
                    Date::from_ymd_opt(1970, 1, 1).unwrap()
                },
            }
        },
    }
}

/// The forecast of a data row.
fn forecast_from_row(fields: &Vec<String>, positions: &Vec<usize>) -> (r: Forecast)
    requires
        positions@.len() >= 6,
    ensures
        r@ == forecast_of_row(strings_view(fields@), positions@.map_values(|i: usize| i as int)),
{
    proof {
        reveal_strlit("");
        assert(""@ =~= Seq::<char>::empty());
    }
    let ghost ps = positions@.map_values(|i: usize| i as int);
    assert(ps[0] == positions@[0] as int);
    assert(ps[1] == positions@[1] as int);
    assert(ps[2] == positions@[2] as int);
    assert(ps[3] == positions@[3] as int);
    assert(ps[4] == positions@[4] as int);
    assert(ps[5] == positions@[5] as int);
    Forecast {
        sold_to_company: field_or_default(fields, 0, "").to_owned(),
        project_manager: field_or_default(fields, 1, "").to_owned(),
        project_name: field_or_default(fields, 2, "").to_owned(),
        project_id: field_or_default(fields, 3, "").to_owned(),
        class: field_or_default(fields, 4, "").to_owned(),
        start_date: date_of_field(fields, 5),
        finish_date: date_of_field(fields, 6),
        contract_total_value: amount_of_field(fields, 7),
        contract_remaining_value: amount_of_field(fields, 8),
        currency: field_or_default(fields, 9, "").to_owned(),
        month1_labor_revenue_commit: amount_of_field(fields, positions[0]),
        month2_labor_revenue_commit: amount_of_field(fields, positions[1]),
        month3_labor_revenue_commit: amount_of_field(fields, positions[2]),
        month4_labor_revenue_commit: amount_of_field(fields, positions[3]),
        month5_labor_revenue_commit: amount_of_field(fields, positions[4]),
        month6_labor_revenue_commit: amount_of_field(fields, positions[5]),
    }
}

/// Whether a data row holds a forecast.
fn forecast_row_is_kept(fields: &Vec<String>) -> (r: bool)
    ensures
        r == forecast_row_kept(strings_view(fields@)),
{
    proof {
        reveal_strlit("");
        reveal_strlit("ID");
        assert(""@ =~= Seq::<char>::empty());
    }
    let id = field_or_default(fields, 3, "");
    !is_blank(id) && !str_eq(id, "ID")
}

/// Loads forecasts from the records of a forecasts CSV file: record 0
/// (month dates) is skipped, record 1 holds the column headers, and each
/// later record that the reader could read and whose project id is neither
/// blank nor "ID" is stored (replacing a forecast with the same id). Fails,
/// storing nothing, when there is no header record, when it could not be
/// read, or when it names fewer than six "Labor Rev Committ" columns.
pub fn load_forecast_records(
    repo: &mut InMemoryRepository,
    records: &Vec<Result<Vec<String>, String>>,
) -> (r: Result<usize, LoadError>)
    requires
        old(repo).wf(),
    ensures
        final(repo).wf(),
        final(repo).projects() == old(repo).projects(),
        match load_forecasts_spec(old(repo).forecasts(), records_view(records@)) {
            Ok((entries, n)) => r == Ok::<usize, LoadError>(n as usize) && final(repo).forecasts()
                == entries,
            Err(e) => r matches Err(x) && x@ == e && final(repo).forecasts() == old(
                repo,
            ).forecasts(),
        },
{
    let ghost rv = records_view(records@);
    if records.len() < 2 {
        return Err(LoadError::MissingHeaderRow);
    }
    let header = match &records[1] {
        Ok(h) => h,
        Err(m) => {
            return Err(LoadError::Csv(m.clone()));
        },
    };
    assert(rv[1] == Ok::<Seq<Seq<char>>, Seq<char>>(strings_view(header@)));
    let positions = find_labor_rev_positions(header);
    let ghost ps = positions@.map_values(|i: usize| i as int);
    if positions.len() < 6 {
        return Err(LoadError::MissingLaborRevenueColumns);
    }
    let ghost data = rv.skip(2);
    let ghost start = repo.forecasts();
    let mut count: usize = 0;
    let mut i: usize = 2;
    while i < records.len()
        invariant
            2 <= i <= records@.len(),
            rv == records_view(records@),
            data == rv.skip(2),
            positions@.len() >= 6,
            ps == positions@.map_values(|i: usize| i as int),
            repo.wf(),
            repo.projects() == old(repo).projects(),
            start == old(repo).forecasts(),
            (repo.forecasts(), count as nat) == store_forecast_rows(
                start,
                data.take(i - 2),
                ps,
            ),
            count <= i,
        decreases records@.len() - i,
    {
        let ghost k = i - 2;
        assert(data.take(k + 1).drop_last() == data.take(k));
        assert(data.take(k + 1).last() == rv[i as int]);
        match &records[i] {
            Ok(fields) => {
                assert(rv[i as int] == Ok::<Seq<Seq<char>>, Seq<char>>(strings_view(fields@)));
                if forecast_row_is_kept(fields) {
                    let forecast = forecast_from_row(fields, &positions);
                    ForecastRepositoryTrait::insert(repo, forecast);
                    count = count + 1;
                }
            },
            Err(_) => {},
        }
        i = i + 1;
    }
    assert(data.take(records@.len() - 2) == data);
    Ok(count)
}

/// Loads forecasts from the text of a forecasts CSV file (see
/// `load_forecast_records`).
pub fn load_forecasts_from_csv(repo: &mut InMemoryRepository, csv: &[u8]) -> (r: Result<
    usize,
    LoadError,
>)
    requires
        old(repo).wf(),
    ensures
        final(repo).wf(),
        final(repo).projects() == old(repo).projects(),
        match load_forecasts_spec(old(repo).forecasts(), csv_records(csv@)) {
            Ok((entries, n)) => r == Ok::<usize, LoadError>(n as usize) && final(repo).forecasts()
                == entries,
            Err(e) => r matches Err(x) && x@ == e && final(repo).forecasts() == old(
                repo,
            ).forecasts(),
        },
{
    let (records, _positions) = read_csv_records(csv);
    load_forecast_records(repo, &records)
}

// ----- projects -----

/// The column names of the project fields, in the order of the fields of
/// `Project`.
pub open spec fn project_columns() -> Seq<Seq<char>> {
    seq![
        lit("Project ID"),
        lit("Sales Org"),
        lit("End Customer Name"),
        lit("Project Name"),
        lit("Manager"),
        lit("Other Stakeholder"),
        lit("Start"),
        lit("Finish"),
        lit("On Hold"),
        lit("On Hold Comment"),
    ]
}

/// Whether the column at index `k` of `project_columns` may be absent from
/// the header: "Sales Org" (files written before it existed; read as empty
/// text), "Other Stakeholder" and "On Hold Comment".
pub open spec fn column_optional(k: int) -> bool {
    k == 1 || k == 5 || k == 9
}

/// Scanning the header from index `p`, the first project column name that
/// already occurred before it, if any.
pub open spec fn first_duplicate_from(header: Seq<Seq<char>>, p: int) -> Option<Seq<char>>
    decreases header.len() - p,
{
    if p < 0 || p >= header.len() {
        None
    } else if project_columns().contains(header[p]) && header.take(p).contains(header[p]) {
        Some(header[p])
    } else {
        first_duplicate_from(header, p + 1)
    }
}

/// From index `k` of `project_columns`, the first required column that the
/// header lacks, if any.
pub open spec fn first_missing_from(header: Seq<Seq<char>>, k: int) -> Option<Seq<char>>
    decreases 10 - k,
{
    if k < 0 || k >= 10 {
        None
    } else if !column_optional(k) && !header.contains(project_columns()[k]) {
        Some(project_columns()[k])
    } else {
        first_missing_from(header, k + 1)
    }
}

/// The text of the field under the column named `name`.
pub open spec fn column_text(header: Seq<Seq<char>>, fields: Seq<Seq<char>>, name: Seq<char>) -> Seq<
    char,
> {
    field_or(fields, crate::db::repositories::keyed::key_position(header, name), Seq::empty())
}

/// The text of an optional column: absent when the header lacks the
/// column or the field is empty.
pub open spec fn optional_column(
    header: Seq<Seq<char>>,
    fields: Seq<Seq<char>>,
    name: Seq<char>,
) -> Option<Seq<char>> {
    if !header.contains(name) || column_text(header, fields, name).len() == 0 {
        None
    } else {
        Some(column_text(header, fields, name))
    }
}

/// Whether the text of the "On Hold" column means true: its lower-case
/// form is "true".
pub open spec fn on_hold_flag(text: Seq<char>) -> bool {
    lowercase(text) == lit("true")
}

/// The text of an optional field: absent when empty.
pub open spec fn optional_text(text: Seq<char>) -> Option<Seq<char>> {
    if text.len() == 0 {
        None
    } else {
        Some(text)
    }
}

/// The project of a data row at position `pos`. With column names
/// (`Some(header)`), fields match columns by name: an error when a project
/// column is named twice, or when a required column is missing. Without
/// them (the header record could not be read), the first ten fields are
/// the project's fields in order: an error when there are fewer.
pub open spec fn project_of_row(
    header: Option<Seq<Seq<char>>>,
    fields: Seq<Seq<char>>,
    pos: Option<(u64, u64, u64)>,
) -> Result<ProjectView, LoadErrorView> {
    let cols = project_columns();
    match header {
        Some(header) => match first_duplicate_from(header, 0) {
            Some(d) => Err(LoadErrorView::DuplicateField(d, pos)),
            None => match first_missing_from(header, 0) {
                Some(m) => Err(LoadErrorView::MissingField(m, pos)),
                None => Ok(
                    ProjectView {
                        project_id: column_text(header, fields, cols[0]),
                        sales_org: column_text(header, fields, cols[1]),
                        end_customer_name: column_text(header, fields, cols[2]),
                        project_name: column_text(header, fields, cols[3]),
                        project_manager: column_text(header, fields, cols[4]),
                        account_executive: optional_column(header, fields, cols[5]),
                        start_date: column_text(header, fields, cols[6]),
                        end_date: column_text(header, fields, cols[7]),
                        on_hold: on_hold_flag(column_text(header, fields, cols[8])),
                        on_hold_comment: optional_column(header, fields, cols[9]),
                    },
                ),
            },
        },
        None => if fields.len() < 10 {
            Err(LoadErrorView::InvalidLength(fields.len() as usize, pos))
        } else {
            Ok(
                ProjectView {
                    project_id: fields[0],
                    sales_org: fields[1],
                    end_customer_name: fields[2],
                    project_name: fields[3],
                    project_manager: fields[4],
                    account_executive: optional_text(fields[5]),
                    start_date: fields[6],
                    end_date: fields[7],
                    on_hold: on_hold_flag(fields[8]),
                    on_hold_comment: optional_text(fields[9]),
                },
            )
        },
    }
}

/// The position at index `i`, if given.
pub open spec fn position_at(positions: Seq<Option<(u64, u64, u64)>>, i: int) -> Option<
    (u64, u64, u64),
> {
    if 0 <= i < positions.len() {
        positions[i]
    } else {
        None
    }
}

/// Stores the projects of the data rows `rows` (the records after the
/// header, so that row `j` has the record position `positions[j + 1]`) in
/// order, stopping at the
/// first row that the reader could not read or that does not map to a
/// project: the projects after them, how many rows were stored, and the
/// error that stopped, if any. A project whose id is "code" is skipped.
pub open spec fn store_project_rows(
    entries: Seq<ProjectView>,
    header: Option<Seq<Seq<char>>>,
    rows: Seq<Result<Seq<Seq<char>>, Seq<char>>>,
    positions: Seq<Option<(u64, u64, u64)>>,
) -> (Seq<ProjectView>, nat, Option<LoadErrorView>)
    decreases rows.len(),
{
    if rows.len() == 0 {
        (entries, 0, None)
    } else {
        let (e, n, err) = store_project_rows(entries, header, rows.drop_last(), positions);
        if err is Some {
            (e, n, err)
        } else {
            match rows.last() {
                Err(m) => (e, n, Some(LoadErrorView::Csv(m))),
                Ok(fields) => match project_of_row(
                    header,
                    fields,
                    position_at(positions, rows.len() as int),
                ) {
                    Err(x) => (e, n, Some(x)),
                    Ok(p) => if p.project_id == lit("code") {
                        (e, n, None)
                    } else {
                        (upsert_project(e, p), n + 1, None)
                    },
                },
            }
        }
    }
}

/// The column names that record 0 gives: its fields, or none when the
/// reader could not read it (the rows are then read by position).
pub open spec fn header_names(records: Seq<Result<Seq<Seq<char>>, Seq<char>>>) -> Option<
    Seq<Seq<char>>,
> {
    match records[0] {
        Ok(header) => Some(header),
        Err(_) => None,
    }
}

/// What loading the project records, at the given positions, gives: the
/// projects after loading, and the number of rows stored or the error that
/// stopped the loading. Record 0 holds the column headers.
pub open spec fn load_projects_spec(
    entries: Seq<ProjectView>,
    records: Seq<Result<Seq<Seq<char>>, Seq<char>>>,
    positions: Seq<Option<(u64, u64, u64)>>,
) -> (Seq<ProjectView>, Result<nat, LoadErrorView>) {
    if records.len() == 0 {
        (entries, Ok(0))
    } else {
        let (e, n, err) = store_project_rows(
            entries,
            header_names(records),
            records.skip(1),
            positions,
        );
        (
            e,
            match err {
                Some(x) => Err(x),
                None => Ok(n),
            },
        )
    }
}

/// Once storing project rows has stopped on an error, later rows change
/// nothing.
proof fn lemma_store_stops(
    entries: Seq<ProjectView>,
    header: Option<Seq<Seq<char>>>,
    rows: Seq<Result<Seq<Seq<char>>, Seq<char>>>,
    positions: Seq<Option<(u64, u64, u64)>>,
    j: int,
)
    requires
        0 <= j <= rows.len(),
        store_project_rows(entries, header, rows.take(j), positions).2 is Some,
    ensures
        store_project_rows(entries, header, rows, positions) == store_project_rows(
            entries,
            header,
            rows.take(j),
            positions,
        ),
    decreases rows.len() - j,
{
    if j == rows.len() {
        assert(rows.take(j) == rows);
    } else {
        assert(rows.take(j + 1).drop_last() == rows.take(j));
        lemma_store_stops(entries, header, rows, positions, j + 1);
    }
}

/// The projects that storing the data rows `rows` stores, in order, up to
/// the row that stops it.
pub open spec fn stored_projects(
    header: Option<Seq<Seq<char>>>,
    rows: Seq<Result<Seq<Seq<char>>, Seq<char>>>,
    positions: Seq<Option<(u64, u64, u64)>>,
) -> Seq<ProjectView>
    decreases rows.len(),
{
    if rows.len() == 0 {
        Seq::empty()
    } else {
        let q = stored_projects(header, rows.drop_last(), positions);
        if store_project_rows(Seq::empty(), header, rows.drop_last(), positions).2 is Some {
            q
        } else {
            match rows.last() {
                Err(_) => q,
                Ok(fields) => match project_of_row(
                    header,
                    fields,
                    position_at(positions, rows.len() as int),
                ) {
                    Err(_) => q,
                    Ok(p) => if p.project_id == lit("code") {
                        q
                    } else {
                        q.push(p)
                    },
                },
            }
        }
    }
}

/// Storing project rows stores the batch of their projects, whatever was
/// stored before; the count and the error do not depend on it.
proof fn lemma_store_project_rows_batch(
    entries: Seq<ProjectView>,
    header: Option<Seq<Seq<char>>>,
    rows: Seq<Result<Seq<Seq<char>>, Seq<char>>>,
    positions: Seq<Option<(u64, u64, u64)>>,
)
    ensures
        store_project_rows(entries, header, rows, positions) == (
            upsert_projects(entries, stored_projects(header, rows, positions)),
            stored_projects(header, rows, positions).len(),
            store_project_rows(Seq::empty(), header, rows, positions).2,
        ),
    decreases rows.len(),
{
    if rows.len() > 0 {
        let r0 = rows.drop_last();
        lemma_store_project_rows_batch(entries, header, r0, positions);
        lemma_store_project_rows_batch(Seq::empty(), header, r0, positions);
        let q0 = stored_projects(header, r0, positions);
        if store_project_rows(Seq::empty(), header, r0, positions).2 is None {
            if let Ok(fields) = rows.last() {
                if let Ok(p) = project_of_row(
                    header,
                    fields,
                    position_at(positions, rows.len() as int),
                ) {
                    assert(q0.push(p).drop_last() =~= q0);
                }
            }
        }
    }
}

/// Loading the same projects file a second time changes nothing: the same
/// projects are stored, and the same count or error is reported.
pub proof fn law_load_projects_twice(
    entries: Seq<ProjectView>,
    records: Seq<Result<Seq<Seq<char>>, Seq<char>>>,
    positions: Seq<Option<(u64, u64, u64)>>,
)
    requires
        keys_distinct(project_ids(entries)),
    ensures
        load_projects_spec(load_projects_spec(entries, records, positions).0, records, positions)
            == load_projects_spec(entries, records, positions),
{
    if records.len() > 0 {
        let header = header_names(records);
        let rows = records.skip(1);
        let q = stored_projects(header, rows, positions);
        lemma_store_project_rows_batch(entries, header, rows, positions);
        lemma_store_project_rows_batch(upsert_projects(entries, q), header, rows, positions);
        law_upsert_projects_twice(entries, q);
    }
}

/// Whether data row `k` of `rows` (record `k + 1`) stops the loading: the
/// reader could not read it, or it does not map to a project.
pub open spec fn project_row_fails(
    header: Option<Seq<Seq<char>>>,
    rows: Seq<Result<Seq<Seq<char>>, Seq<char>>>,
    positions: Seq<Option<(u64, u64, u64)>>,
    k: int,
) -> bool {
    match rows[k] {
        Err(_) => true,
        Ok(f) => project_of_row(header, f, position_at(positions, k + 1)) is Err,
    }
}

/// Whether record `k` of a projects file stops the loading.
pub open spec fn project_record_fails(
    records: Seq<Result<Seq<Seq<char>>, Seq<char>>>,
    positions: Seq<Option<(u64, u64, u64)>>,
    k: int,
) -> bool {
    project_row_fails(header_names(records), records.skip(1), positions, k - 1)
}

/// The error with which record `k` of a projects file stops the loading.
pub open spec fn project_record_error(
    records: Seq<Result<Seq<Seq<char>>, Seq<char>>>,
    positions: Seq<Option<(u64, u64, u64)>>,
    k: int,
) -> LoadErrorView {
    match records[k] {
        Err(m) => LoadErrorView::Csv(m),
        Ok(f) => match project_of_row(header_names(records), f, position_at(positions, k)) {
            Err(x) => x,
            Ok(_) => LoadErrorView::MissingHeaderRow,
        },
    }
}

/// Storing rows stops on an error exactly when one of them fails.
proof fn lemma_store_fails_iff(
    entries: Seq<ProjectView>,
    header: Option<Seq<Seq<char>>>,
    rows: Seq<Result<Seq<Seq<char>>, Seq<char>>>,
    positions: Seq<Option<(u64, u64, u64)>>,
)
    ensures
        store_project_rows(entries, header, rows, positions).2 is Some <==> exists|k: int|
            0 <= k < rows.len() && #[trigger] project_row_fails(header, rows, positions, k),
    decreases rows.len(),
{
    if rows.len() > 0 {
        let r0 = rows.drop_last();
        lemma_store_fails_iff(entries, header, r0, positions);
        assert forall|k: int| 0 <= k < r0.len() implies project_row_fails(header, r0, positions, k)
            == project_row_fails(header, rows, positions, k) by {
            assert(r0[k] == rows[k]);
        }
        if store_project_rows(entries, header, rows, positions).2 is Some {
            if store_project_rows(entries, header, r0, positions).2 is Some {
                let k = choose|k: int|
                    0 <= k < r0.len() && #[trigger] project_row_fails(header, r0, positions, k);
                assert(project_row_fails(header, rows, positions, k));
            } else {
                assert(project_row_fails(header, rows, positions, rows.len() - 1));
            }
        }
        if exists|k: int|
            0 <= k < rows.len() && #[trigger] project_row_fails(header, rows, positions, k) {
            let k = choose|k: int|
                0 <= k < rows.len() && #[trigger] project_row_fails(header, rows, positions, k);
            if k < r0.len() {
                assert(project_row_fails(header, r0, positions, k));
            }
        }
    }
}

/// Loading a projects file fails exactly when one of its data records
/// could not be read or does not map to a project.
pub proof fn law_load_projects_fails_iff(
    entries: Seq<ProjectView>,
    records: Seq<Result<Seq<Seq<char>>, Seq<char>>>,
    positions: Seq<Option<(u64, u64, u64)>>,
)
    requires
        records.len() >= 1,
    ensures
        load_projects_spec(entries, records, positions).1 is Err <==> exists|k: int|
            1 <= k < records.len() && #[trigger] project_record_fails(records, positions, k),
{
    let h = header_names(records);
    let rows = records.skip(1);
    lemma_store_fails_iff(entries, h, rows, positions);
    if exists|k: int| 0 <= k < rows.len() && #[trigger] project_row_fails(h, rows, positions, k) {
        let k = choose|k: int|
            0 <= k < rows.len() && #[trigger] project_row_fails(h, rows, positions, k);
        assert(project_record_fails(records, positions, k + 1));
    }
    if exists|k: int| 1 <= k < records.len() && #[trigger] project_record_fails(records, positions, k) {
        let k = choose|k: int|
            1 <= k < records.len() && #[trigger] project_record_fails(records, positions, k);
        assert(project_row_fails(h, rows, positions, k - 1));
    }
}

/// Loading a projects file stops at its first failing data record `k`: it
/// fails with that record's error, the projects of the records before it
/// are stored as if the file ended there, and none after it.
pub proof fn law_load_projects_stops_at_first_failure(
    entries: Seq<ProjectView>,
    records: Seq<Result<Seq<Seq<char>>, Seq<char>>>,
    positions: Seq<Option<(u64, u64, u64)>>,
    k: int,
)
    requires
        1 <= k < records.len(),
        project_record_fails(records, positions, k),
        forall|i: int| 1 <= i < k ==> !#[trigger] project_record_fails(records, positions, i),
    ensures
        load_projects_spec(entries, records, positions).1 == Err::<nat, LoadErrorView>(
            project_record_error(records, positions, k),
        ),
        load_projects_spec(entries, records.take(k), positions).1 is Ok,
        load_projects_spec(entries, records, positions).0 == load_projects_spec(
            entries,
            records.take(k),
            positions,
        ).0,
{
    let h = header_names(records);
    let rows = records.skip(1);
    let kk = k - 1;
    let pre = rows.take(kk);
    assert(records.take(k).skip(1) =~= pre);
    assert(records.take(k)[0] == records[0]);
    assert(header_names(records.take(k)) == h);
    assert forall|i: int| 0 <= i < pre.len() implies !#[trigger] project_row_fails(
        h,
        pre,
        positions,
        i,
    ) by {
        assert(pre[i] == rows[i]);
        assert(!project_record_fails(records, positions, i + 1));
    }
    lemma_store_fails_iff(entries, h, pre, positions);
    assert(rows.take(kk + 1).drop_last() =~= pre);
    assert(rows.take(kk + 1).last() == records[k]);
    lemma_store_stops(entries, h, rows, positions, kk + 1);
}

/// The projects of the data rows, in order, each row read as a project
/// where it maps to one, rows with id "code" left out.
pub open spec fn row_projects(
    header: Option<Seq<Seq<char>>>,
    rows: Seq<Result<Seq<Seq<char>>, Seq<char>>>,
    positions: Seq<Option<(u64, u64, u64)>>,
) -> Seq<ProjectView>
    decreases rows.len(),
{
    if rows.len() == 0 {
        Seq::empty()
    } else {
        let q = row_projects(header, rows.drop_last(), positions);
        match rows.last() {
            Err(_) => q,
            Ok(fields) => match project_of_row(
                header,
                fields,
                position_at(positions, rows.len() as int),
            ) {
                Err(_) => q,
                Ok(p) => if p.project_id == lit("code") {
                    q
                } else {
                    q.push(p)
                },
            },
        }
    }
}

/// With no failing row, storing stores the rows' projects, and no project
/// with id "code".
proof fn lemma_row_projects(
    header: Option<Seq<Seq<char>>>,
    rows: Seq<Result<Seq<Seq<char>>, Seq<char>>>,
    positions: Seq<Option<(u64, u64, u64)>>,
)
    requires
        forall|k: int|
            0 <= k < rows.len() ==> !#[trigger] project_row_fails(header, rows, positions, k),
    ensures
        stored_projects(header, rows, positions) == row_projects(header, rows, positions),
        store_project_rows(Seq::empty(), header, rows, positions).2 is None,
        forall|i: int|
            0 <= i < row_projects(header, rows, positions).len() ==> (#[trigger] row_projects(
                header,
                rows,
                positions,
            )[i]).project_id != lit("code"),
        last_project_with_id(row_projects(header, rows, positions), lit("code")) is None,
    decreases rows.len(),
{
    if rows.len() > 0 {
        let r0 = rows.drop_last();
        assert forall|k: int| 0 <= k < r0.len() implies !#[trigger] project_row_fails(
            header,
            r0,
            positions,
            k,
        ) by {
            assert(r0[k] == rows[k]);
            assert(!project_row_fails(header, rows, positions, k));
        }
        lemma_row_projects(header, r0, positions);
        assert(!project_row_fails(header, rows, positions, rows.len() - 1));
        let q = row_projects(header, r0, positions);
        if let Ok(fields) = rows.last() {
            if let Ok(p) = project_of_row(header, fields, position_at(positions, rows.len() as int)) {
                if p.project_id != lit("code") {
                    let q2 = q.push(p);
                    assert forall|i: int| 0 <= i < q2.len() implies (#[trigger] q2[i]).project_id
                        != lit("code") by {
                        if i < q.len() {
                            assert(q2[i] == q[i]);
                        }
                    }
                    assert(q2.drop_last() =~= q);
                }
            }
        }
    }
}

/// When every data record of a projects file maps to a project, loading
/// reports the number of those projects whose id is not "code", stores
/// none with id "code", reads under any other id the last such project
/// with that id, and leaves every other id as it was.
pub proof fn law_load_projects_all_rows(
    entries: Seq<ProjectView>,
    records: Seq<Result<Seq<Seq<char>>, Seq<char>>>,
    positions: Seq<Option<(u64, u64, u64)>>,
    id: Seq<char>,
)
    requires
        keys_distinct(project_ids(entries)),
        records.len() >= 1,
        forall|k: int|
            1 <= k < records.len() ==> !#[trigger] project_record_fails(records, positions, k),
    ensures
        load_projects_spec(entries, records, positions).1 == Ok::<nat, LoadErrorView>(
            row_projects(header_names(records), records.skip(1), positions).len(),
        ),
        forall|i: int|
            0 <= i < row_projects(header_names(records), records.skip(1), positions).len()
                ==> (#[trigger] row_projects(header_names(records), records.skip(1), positions)[i]).project_id
                != lit("code"),
        lookup_project(load_projects_spec(entries, records, positions).0, id) == match last_project_with_id(
            row_projects(header_names(records), records.skip(1), positions),
            id,
        ) {
            Some(p) => Some(p),
            None => lookup_project(entries, id),
        },
        id == lit("code") ==> lookup_project(load_projects_spec(entries, records, positions).0, id)
            == lookup_project(entries, id),
{
    let h = header_names(records);
    let rows = records.skip(1);
    assert forall|k: int| 0 <= k < rows.len() implies !#[trigger] project_row_fails(
        h,
        rows,
        positions,
        k,
    ) by {
        assert(!project_record_fails(records, positions, k + 1));
    }
    lemma_row_projects(h, rows, positions);
    lemma_store_project_rows_batch(entries, h, rows, positions);
    lemma_upsert_projects_lookup(entries, stored_projects(h, rows, positions));
    let loaded = upsert_projects(entries, stored_projects(h, rows, positions));
    assert(lookup_project(loaded, id) == match last_project_with_id(
        stored_projects(h, rows, positions),
        id,
    ) {
        Some(p) => Some(p),
        None => lookup_project(entries, id),
    });
}

/// The name of project column `k`.
fn column_name(k: usize) -> (r: &'static str)
    requires
        k < 10,
    ensures
        r@ == project_columns()[k as int],
{
    proof {
        reveal_strlit("Project ID");
        reveal_strlit("Sales Org");
        reveal_strlit("End Customer Name");
        reveal_strlit("Project Name");
        reveal_strlit("Manager");
        reveal_strlit("Other Stakeholder");
        reveal_strlit("Start");
        reveal_strlit("Finish");
        reveal_strlit("On Hold");
        reveal_strlit("On Hold Comment");
    }
    if k == 0 {
        "Project ID"
    } else if k == 1 {
        "Sales Org"
    } else if k == 2 {
        "End Customer Name"
    } else if k == 3 {
        "Project Name"
    } else if k == 4 {
        "Manager"
    } else if k == 5 {
        "Other Stakeholder"
    } else if k == 6 {
        "Start"
    } else if k == 7 {
        "Finish"
    } else if k == 8 {
        "On Hold"
    } else {
        "On Hold Comment"
    }
}

/// Whether `name` is one of the project column names.
fn is_project_column(name: &str) -> (r: bool)
    ensures
        r == project_columns().contains(name@),
{
    let mut k: usize = 0;
    while k < 10
        invariant
            k <= 10,
            forall|j: int| 0 <= j < k ==> project_columns()[j] != name@,
        decreases 10 - k,
    {
        if str_eq(column_name(k), name) {
            assert(project_columns()[k as int] == name@);
            return true;
        }
        k = k + 1;
    }
    false
}

/// The index of the first header field equal to `name`.
fn position_in(header: &Vec<String>, name: &str) -> (r: Option<usize>)
    ensures
        match r {
            Some(k) => crate::db::repositories::keyed::key_position(strings_view(header@), name@)
                == k as int && k < header@.len(),
            None => crate::db::repositories::keyed::key_position(strings_view(header@), name@)
                == -1,
        },
{
    let ghost hv = strings_view(header@);
    let mut i: usize = 0;
    while i < header.len()
        invariant
            i <= header@.len(),
            hv == strings_view(header@),
            crate::db::repositories::keyed::key_position(hv, name@)
                == crate::db::repositories::keyed::key_position_from(hv, name@, i as int),
        decreases header@.len() - i,
    {
        if str_eq(header[i].as_str(), name) {
            return Some(i);
        }
        i = i + 1;
    }
    None
}

/// The first project column named twice in the header, or else the first
/// required column that it lacks, as an error.
fn header_error(header: &Vec<String>, pos: Option<(u64, u64, u64)>) -> (r: Option<LoadError>)
    ensures
        match r {
            Some(e) => match first_duplicate_from(strings_view(header@), 0) {
                Some(d) => e@ == LoadErrorView::DuplicateField(d, pos),
                None => first_missing_from(strings_view(header@), 0) matches Some(m) && e@
                    == LoadErrorView::MissingField(m, pos),
            },
            None => first_duplicate_from(strings_view(header@), 0) is None && first_missing_from(
                strings_view(header@),
                0,
            ) is None,
        },
{
    let ghost hv = strings_view(header@);
    let mut p: usize = 0;
    while p < header.len()
        invariant
            p <= header@.len(),
            hv == strings_view(header@),
            first_duplicate_from(hv, 0) == first_duplicate_from(hv, p as int),
        decreases header@.len() - p,
    {
        if is_project_column(header[p].as_str()) {
            let mut q: usize = 0;
            while q < p
                invariant
                    q <= p < header@.len(),
                    hv == strings_view(header@),
                    first_duplicate_from(hv, 0) == first_duplicate_from(hv, p as int),
                    project_columns().contains(hv[p as int]),
                    forall|j: int| 0 <= j < q ==> hv[j] != hv[p as int],
                decreases p - q,
            {
                if str_eq(header[q].as_str(), header[p].as_str()) {
                    assert(hv.take(p as int)[q as int] == hv[p as int]);
                    assert(hv.take(p as int).contains(hv[p as int]));
                    assert(hv[p as int] == header@[p as int]@);
                    return Some(LoadError::DuplicateField(header[p].clone(), pos));
                }
                q = q + 1;
            }
            assert(!hv.take(p as int).contains(hv[p as int]));
        }
        p = p + 1;
    }
    let mut k: usize = 0;
    while k < 10
        invariant
            k <= 10,
            hv == strings_view(header@),
            first_duplicate_from(hv, 0) is None,
            first_missing_from(hv, 0) == first_missing_from(hv, k as int),
        decreases 10 - k,
    {
        if k != 1 && k != 5 && k != 9 {
            let name = column_name(k);
            proof {
                crate::db::repositories::keyed::lemma_key_position(hv, name@);
            }
            if position_in(header, name).is_none() {
                return Some(LoadError::MissingField(name.to_owned(), pos));
            }
        }
        k = k + 1;
    }
    None
}

/// The field of a row under a column found at `pos`, or the empty text.
fn column_field<'a>(fields: &'a Vec<String>, pos: Option<usize>) -> (r: &'a str)
    ensures
        r@ == field_or(
            strings_view(fields@),
            match pos {
                Some(i) => i as int,
                None => -1,
            },
            Seq::empty(),
        ),
{
    proof {
        reveal_strlit("");
        assert(""@ =~= Seq::<char>::empty());
    }
    match pos {
        Some(i) => field_or_default(fields, i, ""),
        None => "",
    }
}

/// The text of an optional column, absent when empty.
fn optional_field(fields: &Vec<String>, pos: Option<usize>) -> (r: Option<String>)
    ensures
        crate::models::project::opt_view(r) == (if pos is None || field_or(
            strings_view(fields@),
            match pos {
                Some(i) => i as int,
                None => -1,
            },
            Seq::empty(),
        ).len() == 0 {
            None
        } else {
            Some(
                field_or(
                    strings_view(fields@),
                    match pos {
                        Some(i) => i as int,
                        None => -1,
                    },
                    Seq::empty(),
                ),
            )
        }),
{
    match pos {
        None => None,
        Some(_) => {
            let text = column_field(fields, pos);
            if text.unicode_len() == 0 {
                None
            } else {
                Some(text.to_owned())
            }
        },
    }
}

/// The positions in the header of the ten project columns.
fn column_positions(header: &Vec<String>) -> (r: Vec<Option<usize>>)
    ensures
        r@.len() == 10,
        forall|k: int|
            0 <= k < 10 ==> match #[trigger] r@[k] {
                Some(i) => crate::db::repositories::keyed::key_position(
                    strings_view(header@),
                    project_columns()[k],
                ) == i as int,
                None => crate::db::repositories::keyed::key_position(
                    strings_view(header@),
                    project_columns()[k],
                ) == -1,
            },
{
    let mut r: Vec<Option<usize>> = Vec::new();
    let mut k: usize = 0;
    while k < 10
        invariant
            k <= 10,
            r@.len() == k,
            forall|j: int|
                0 <= j < k ==> match #[trigger] r@[j] {
                    Some(i) => crate::db::repositories::keyed::key_position(
                        strings_view(header@),
                        project_columns()[j],
                    ) == i as int,
                    None => crate::db::repositories::keyed::key_position(
                        strings_view(header@),
                        project_columns()[j],
                    ) == -1,
                },
        decreases 10 - k,
    {
        r.push(position_in(header, column_name(k)));
        k = k + 1;
    }
    r
}

/// The project of a data row, given the positions of the columns of a
/// header without errors.
fn project_from_row(header: &Vec<String>, cols: &Vec<Option<usize>>, fields: &Vec<String>) -> (r:
    Project)
    requires
        cols@.len() == 10,
        forall|k: int|
            0 <= k < 10 ==> match #[trigger] cols@[k] {
                Some(i) => crate::db::repositories::keyed::key_position(
                    strings_view(header@),
                    project_columns()[k],
                ) == i as int,
                None => crate::db::repositories::keyed::key_position(
                    strings_view(header@),
                    project_columns()[k],
                ) == -1,
            },
        first_duplicate_from(strings_view(header@), 0) is None,
        first_missing_from(strings_view(header@), 0) is None,
    ensures
        forall|pos: Option<(u64, u64, u64)>|
            #[trigger] project_of_row(Some(strings_view(header@)), strings_view(fields@), pos)
                == Ok::<ProjectView, LoadErrorView>(r@),
{
    let ghost hv = strings_view(header@);
    let ghost fv = strings_view(fields@);
    proof {
        let cs = project_columns();
        crate::db::repositories::keyed::lemma_key_position(hv, cs[5]);
        crate::db::repositories::keyed::lemma_key_position(hv, cs[9]);
        assert(cols@[5] is None <==> !hv.contains(cs[5]));
        assert(cols@[9] is None <==> !hv.contains(cs[9]));
        assert(cols@[0] == cols@[0]);
        assert(cols@[1] == cols@[1]);
        assert(cols@[2] == cols@[2]);
        assert(cols@[3] == cols@[3]);
        assert(cols@[4] == cols@[4]);
        assert(cols@[6] == cols@[6]);
        assert(cols@[7] == cols@[7]);
        assert(cols@[8] == cols@[8]);
        reveal_strlit("true");
    }
    let on_hold_text = to_lowercase(column_field(fields, cols[8]));
    let on_hold = str_eq(on_hold_text.as_str(), "true");
    Project {
        project_id: column_field(fields, cols[0]).to_owned(),
        sales_org: column_field(fields, cols[1]).to_owned(),
        end_customer_name: column_field(fields, cols[2]).to_owned(),
        project_name: column_field(fields, cols[3]).to_owned(),
        project_manager: column_field(fields, cols[4]).to_owned(),
        account_executive: optional_field(fields, cols[5]),
        start_date: column_field(fields, cols[6]).to_owned(),
        end_date: column_field(fields, cols[7]).to_owned(),
        on_hold,
        on_hold_comment: optional_field(fields, cols[9]),
    }
}

/// The text of an optional field, absent when empty.
fn optional_text_of(text: &String) -> (r: Option<String>)
    ensures
        crate::models::project::opt_view(r) == optional_text(text@),
{
    if text.unicode_len() == 0 {
        None
    } else {
        Some(text.clone())
    }
}

/// The project of a data row read by position: its first ten fields in the
/// order of the fields of `Project`.
fn project_by_position(fields: &Vec<String>) -> (r: Project)
    requires
        fields@.len() >= 10,
    ensures
        forall|pos: Option<(u64, u64, u64)>|
            #[trigger] project_of_row(None, strings_view(fields@), pos) == Ok::<
                ProjectView,
                LoadErrorView,
            >(r@),
{
    let ghost fv = strings_view(fields@);
    proof {
        reveal_strlit("true");
        assert(fv[0] == fields@[0]@);
        assert(fv[1] == fields@[1]@);
        assert(fv[2] == fields@[2]@);
        assert(fv[3] == fields@[3]@);
        assert(fv[4] == fields@[4]@);
        assert(fv[5] == fields@[5]@);
        assert(fv[6] == fields@[6]@);
        assert(fv[7] == fields@[7]@);
        assert(fv[8] == fields@[8]@);
        assert(fv[9] == fields@[9]@);
    }
    let on_hold_text = to_lowercase(fields[8].as_str());
    let on_hold = str_eq(on_hold_text.as_str(), "true");
    Project {
        project_id: fields[0].clone(),
        sales_org: fields[1].clone(),
        end_customer_name: fields[2].clone(),
        project_name: fields[3].clone(),
        project_manager: fields[4].clone(),
        account_executive: optional_text_of(&fields[5]),
        start_date: fields[6].clone(),
        end_date: fields[7].clone(),
        on_hold,
        on_hold_comment: optional_text_of(&fields[9]),
    }
}

/// The position of record `i`, if given.
fn record_position(positions: &Vec<Option<(u64, u64, u64)>>, i: usize) -> (r: Option<
    (u64, u64, u64),
>)
    ensures
        r == position_at(positions@, i as int),
{
    if i < positions.len() {
        positions[i]
    } else {
        None
    }
}

/// The same header error, met on the row at `pos`.
fn error_at(e: &LoadError, pos: Option<(u64, u64, u64)>) -> (r: LoadError)
    ensures
        e@ matches LoadErrorView::DuplicateField(d, _) ==> r@ == LoadErrorView::DuplicateField(
            d,
            pos,
        ),
        e@ matches LoadErrorView::MissingField(m, _) ==> r@ == LoadErrorView::MissingField(
            m,
            pos,
        ),
{
    match e {
        LoadError::DuplicateField(d, _) => LoadError::DuplicateField(d.clone(), pos),
        LoadError::MissingField(m, _) => LoadError::MissingField(m.clone(), pos),
        LoadError::Csv(m) => LoadError::Csv(m.clone()),
        LoadError::MissingHeaderRow => LoadError::MissingHeaderRow,
        LoadError::MissingLaborRevenueColumns => LoadError::MissingLaborRevenueColumns,
        LoadError::InvalidLength(n, _) => LoadError::InvalidLength(*n, pos),
    }
}

/// Loads projects from the records of a projects CSV file, given the
/// position of each record: record 0 holds the column headers, and each
/// later record maps to a project by the column names (empty optional
/// fields are absent; "On Hold" is true when its lower-case text is
/// "true"), or by position when the header record could not be read; a
/// project with id "code" is skipped and the others are stored, replacing
/// any project with the same id. Stops at the first record that the reader
/// could not read or that does not map to a project, keeping what was
/// stored before it.
pub fn load_project_records(
    repo: &mut InMemoryRepository,
    records: &Vec<Result<Vec<String>, String>>,
    positions: &Vec<Option<(u64, u64, u64)>>,
) -> (r: Result<usize, LoadError>)
    requires
        old(repo).wf(),
    ensures
        final(repo).wf(),
        final(repo).forecasts() == old(repo).forecasts(),
        final(repo).projects() == load_projects_spec(
            old(repo).projects(),
            records_view(records@),
            positions@,
        ).0,
        match load_projects_spec(old(repo).projects(), records_view(records@), positions@).1 {
            Ok(n) => r == Ok::<usize, LoadError>(n as usize),
            Err(e) => r matches Err(x) && x@ == e,
        },
{
    let ghost rv = records_view(records@);
    if records.len() == 0 {
        return Ok(0);
    }
    let empty: Vec<String> = Vec::new();
    let named = records[0].is_ok();
    let header: &Vec<String> = match &records[0] {
        Ok(h) => h,
        Err(_) => &empty,
    };
    let ghost hv = strings_view(header@);
    let ghost names = header_names(rv);
    assert(named ==> names == Some(hv));
    assert(!named ==> names is None);
    let problem = header_error(header, None);
    let cols = column_positions(header);
    let ghost data = rv.skip(1);
    let ghost ps = positions@;
    let ghost start = repo.projects();
    let mut count: usize = 0;
    let mut i: usize = 1;
    proof {
        reveal_strlit("code");
    }
    while i < records.len()
        invariant
            1 <= i <= records@.len(),
            rv == records_view(records@),
            data == rv.skip(1),
            ps == positions@,
            hv == strings_view(header@),
            names == header_names(rv),
            named ==> names == Some(hv),
            !named ==> names is None,
            cols@.len() == 10,
            forall|k: int|
                0 <= k < 10 ==> match #[trigger] cols@[k] {
                    Some(i) => crate::db::repositories::keyed::key_position(
                        hv,
                        project_columns()[k],
                    ) == i as int,
                    None => crate::db::repositories::keyed::key_position(
                        hv,
                        project_columns()[k],
                    ) == -1,
                },
            match problem {
                Some(e) => match first_duplicate_from(hv, 0) {
                    Some(d) => e@ == LoadErrorView::DuplicateField(d, None),
                    None => first_missing_from(hv, 0) matches Some(m) && e@
                        == LoadErrorView::MissingField(m, None),
                },
                None => first_duplicate_from(hv, 0) is None && first_missing_from(hv, 0) is None,
            },
            repo.wf(),
            repo.forecasts() == old(repo).forecasts(),
            start == old(repo).projects(),
            store_project_rows(start, names, data.take(i - 1), ps) == (
                repo.projects(),
                count as nat,
                None::<LoadErrorView>,
            ),
            count < i,
        decreases records@.len() - i,
    {
        let ghost k = i - 1;
        assert(data.take(k + 1).drop_last() == data.take(k));
        assert(data.take(k + 1).last() == rv[i as int]);
        let pos = record_position(positions, i);
        assert(pos == position_at(ps, data.take(k + 1).len() as int));
        match &records[i] {
            Err(m) => {
                assert(rv[i as int] == Err::<Seq<Seq<char>>, Seq<char>>(m@));
                proof {
                    lemma_store_stops(start, names, data, ps, k + 1);
                }
                return Err(LoadError::Csv(m.clone()));
            },
            Ok(fields) => {
                assert(rv[i as int] == Ok::<Seq<Seq<char>>, Seq<char>>(strings_view(fields@)));
                let project = if named {
                    match &problem {
                        Some(e) => {
                            proof {
                                lemma_store_stops(start, names, data, ps, k + 1);
                            }
                            return Err(error_at(e, pos));
                        },
                        None => {},
                    }
                    project_from_row(header, &cols, fields)
                } else {
                    if fields.len() < 10 {
                        proof {
                            lemma_store_stops(start, names, data, ps, k + 1);
                        }
                        return Err(LoadError::InvalidLength(fields.len(), pos));
                    }
                    project_by_position(fields)
                };
                assert(project_of_row(names, strings_view(fields@), pos) == Ok::<
                    ProjectView,
                    LoadErrorView,
                >(project@));
                if !str_eq(project.project_id.as_str(), "code") {
                    ProjectRepositoryTrait::insert(repo, project);
                    count = count + 1;
                }
            },
        }
        i = i + 1;
    }
    assert(data.take(records@.len() - 1) == data);
    Ok(count)
}

/// Loads projects from the text of a projects CSV file (see
/// `load_project_records`).
pub fn load_projects_from_csv(repo: &mut InMemoryRepository, csv: &[u8]) -> (r: Result<
    usize,
    LoadError,
>)
    requires
        old(repo).wf(),
    ensures
        final(repo).wf(),
        final(repo).forecasts() == old(repo).forecasts(),
        final(repo).projects() == load_projects_spec(
            old(repo).projects(),
            csv_records(csv@),
            csv_positions(csv@),
        ).0,
        match load_projects_spec(old(repo).projects(), csv_records(csv@), csv_positions(csv@)).1 {
            Ok(n) => r == Ok::<usize, LoadError>(n as usize),
            Err(e) => r matches Err(x) && x@ == e,
        },
{
    let (records, positions) = read_csv_records(csv);
    load_project_records(repo, &records, &positions)
}

/// Loads the projects file, then the forecasts file; returns both counts.
/// Stops at the first failure: a failure on the projects file loads no
/// forecasts.
pub fn load_data_from_csvs(
    repo: &mut InMemoryRepository,
    projects_csv: &[u8],
    forecasts_csv: &[u8],
) -> (r: Result<(usize, usize), LoadError>)
    requires
        old(repo).wf(),
    ensures
        final(repo).wf(),
        final(repo).projects() == load_projects_spec(
            old(repo).projects(),
            csv_records(projects_csv@),
            csv_positions(projects_csv@),
        ).0,
        match load_projects_spec(
            old(repo).projects(),
            csv_records(projects_csv@),
            csv_positions(projects_csv@),
        ).1 {
            Err(e) => r matches Err(x) && x@ == e && final(repo).forecasts() == old(
                repo,
            ).forecasts(),
            Ok(np) => match load_forecasts_spec(old(repo).forecasts(), csv_records(forecasts_csv@)) {
                Ok((entries, nf)) => r == Ok::<(usize, usize), LoadError>(
                    (np as usize, nf as usize),
                ) && final(repo).forecasts() == entries,
                Err(e) => r matches Err(x) && x@ == e && final(repo).forecasts() == old(
                    repo,
                ).forecasts(),
            },
        },
{
    let project_count = match load_projects_from_csv(repo, projects_csv) {
        Ok(n) => n,
        Err(e) => {
            return Err(e);
        },
    };
    let forecast_count = match load_forecasts_from_csv(repo, forecasts_csv) {
        Ok(n) => n,
        Err(e) => {
            return Err(e);
        },
    };
    Ok((project_count, forecast_count))
}


// ----- laws on the columns of a row -----

/// The index of the first key equal to `key` is `j` when `keys[j]` is the
/// first such key from `i` on.
proof fn lemma_first_key_position(keys: Seq<Seq<char>>, key: Seq<char>, i: int, j: int)
    requires
        0 <= i <= j < keys.len(),
        keys[j] == key,
        forall|q: int| i <= q < j ==> keys[q] != key,
    ensures
        crate::db::repositories::keyed::key_position_from(keys, key, i) == j,
    decreases j - i,
{
    if i < j {
        lemma_first_key_position(keys, key, i + 1, j);
    }
}

/// With no project column named twice from `p` on, a project column at
/// `q` is not named before `q`.
proof fn lemma_no_duplicate_from(header: Seq<Seq<char>>, p: int, q: int)
    requires
        0 <= p <= q < header.len(),
        first_duplicate_from(header, p) is None,
        project_columns().contains(header[q]),
    ensures
        !header.take(q).contains(header[q]),
    decreases q - p,
{
    if p < q {
        lemma_no_duplicate_from(header, p + 1, q);
    }
}

/// Under a header that names no project column twice, the text of the
/// column named like header field `j` is field `j` of the row.
proof fn lemma_named_column_text(header: Seq<Seq<char>>, fields: Seq<Seq<char>>, j: int)
    requires
        0 <= j < header.len(),
        j < fields.len(),
        first_duplicate_from(header, 0) is None,
        project_columns().contains(header[j]),
    ensures
        column_text(header, fields, header[j]) == fields[j],
        header.contains(header[j]),
{
    lemma_no_duplicate_from(header, 0, j);
    assert forall|i: int| 0 <= i < j implies header[i] != header[j] by {
        if header[i] == header[j] {
            assert(header.take(j)[i] == header[i]);
        }
    }
    lemma_first_key_position(header, header[j], 0, j);
}

/// A row read under named columns gives each project field the row's field
/// under the header column of that name, wherever the column stands: the
/// id under "Project ID", the start date under "Start", the end date under
/// "Finish", and so on; the account executive and the on-hold comment are
/// absent where their field is empty; the project is on hold where the
/// field under "On Hold" reads "true" in lower case.
pub proof fn law_project_fields_follow_header_names(
    header: Seq<Seq<char>>,
    fields: Seq<Seq<char>>,
    pos: Option<(u64, u64, u64)>,
    j: int,
)
    requires
        0 <= j < header.len(),
        j < fields.len(),
    ensures
        match project_of_row(Some(header), fields, pos) {
            Ok(p) => {
                &&& header[j] == lit("Project ID") ==> p.project_id == fields[j]
                &&& header[j] == lit("Sales Org") ==> p.sales_org == fields[j]
                &&& header[j] == lit("End Customer Name") ==> p.end_customer_name == fields[j]
                &&& header[j] == lit("Project Name") ==> p.project_name == fields[j]
                &&& header[j] == lit("Manager") ==> p.project_manager == fields[j]
                &&& header[j] == lit("Other Stakeholder") ==> p.account_executive == (if fields[j].len()
                    == 0 {
                    None
                } else {
                    Some(fields[j])
                })
                &&& header[j] == lit("Start") ==> p.start_date == fields[j]
                &&& header[j] == lit("Finish") ==> p.end_date == fields[j]
                &&& header[j] == lit("On Hold") ==> p.on_hold == (lowercase(fields[j]) == lit(
                    "true",
                ))
                &&& header[j] == lit("On Hold Comment") ==> p.on_hold_comment == (if fields[j].len()
                    == 0 {
                    None
                } else {
                    Some(fields[j])
                })
            },
            Err(_) => true,
        },
{
    let cols = project_columns();
    assert(cols[0] == lit("Project ID"));
    assert(cols[1] == lit("Sales Org"));
    assert(cols[2] == lit("End Customer Name"));
    assert(cols[3] == lit("Project Name"));
    assert(cols[4] == lit("Manager"));
    assert(cols[5] == lit("Other Stakeholder"));
    assert(cols[6] == lit("Start"));
    assert(cols[7] == lit("Finish"));
    assert(cols[8] == lit("On Hold"));
    assert(cols[9] == lit("On Hold Comment"));
    if first_duplicate_from(header, 0) is None && cols.contains(header[j]) {
        lemma_named_column_text(header, fields, j);
    }
}

/// How many of the first `j` names are `name`.
pub open spec fn occurrences_before(names: Seq<Seq<char>>, name: Seq<char>, j: int) -> nat
    decreases j,
{
    if j <= 0 {
        0
    } else {
        occurrences_before(names, name, j - 1) + if names[j - 1] == name {
            1nat
        } else {
            0nat
        }
    }
}

proof fn lemma_occurrences_prefix(names: Seq<Seq<char>>, name: Seq<char>, j: int)
    requires
        names.len() > 0,
        0 <= j < names.len(),
    ensures
        occurrences_before(names.drop_last(), name, j) == occurrences_before(names, name, j),
    decreases j,
{
    if j > 0 {
        lemma_occurrences_prefix(names, name, j - 1);
        assert(names.drop_last()[j - 1] == names[j - 1]);
    }
}

proof fn lemma_labor_rev_positions_len(header: Seq<Seq<char>>)
    ensures
        labor_rev_positions(header).len() == occurrences_before(
            header,
            labor_rev_header(),
            header.len() as int,
        ),
    decreases header.len(),
{
    if header.len() > 0 {
        let h0 = header.drop_last();
        lemma_labor_rev_positions_len(h0);
        lemma_occurrences_prefix(header, labor_rev_header(), h0.len() as int);
    }
}

proof fn lemma_labor_rev_position_at(header: Seq<Seq<char>>, j: int)
    requires
        0 <= j < header.len(),
        header[j] == labor_rev_header(),
    ensures
        occurrences_before(header, labor_rev_header(), j) < labor_rev_positions(header).len(),
        labor_rev_positions(header)[occurrences_before(header, labor_rev_header(), j) as int]
            == j,
    decreases header.len(),
{
    let h0 = header.drop_last();
    let rest = labor_rev_positions(h0);
    lemma_occurrences_prefix(header, labor_rev_header(), j);
    if j == header.len() - 1 {
        lemma_labor_rev_positions_len(h0);
    } else {
        assert(h0[j] == header[j]);
        lemma_labor_rev_position_at(h0, j);
    }
}

/// The commit of month `k + 1` of a forecast row is the amount in the
/// `k`-th (from 0) header column named "Labor Rev Committ", counted from
/// the left, whatever number of such columns the header has.
pub proof fn law_forecast_months_follow_labor_columns(
    header: Seq<Seq<char>>,
    fields: Seq<Seq<char>>,
    j: int,
)
    requires
        0 <= j < header.len(),
        header[j] == lit("Labor Rev Committ"),
    ensures
        ({
            let f = forecast_of_row(fields, labor_rev_positions(header));
            let k = occurrences_before(header, lit("Labor Rev Committ"), j);
            &&& k == 0 ==> f.month1_labor_revenue_commit == amount_field(fields, j)
            &&& k == 1 ==> f.month2_labor_revenue_commit == amount_field(fields, j)
            &&& k == 2 ==> f.month3_labor_revenue_commit == amount_field(fields, j)
            &&& k == 3 ==> f.month4_labor_revenue_commit == amount_field(fields, j)
            &&& k == 4 ==> f.month5_labor_revenue_commit == amount_field(fields, j)
            &&& k == 5 ==> f.month6_labor_revenue_commit == amount_field(fields, j)
        }),
{
    lemma_labor_rev_position_at(header, j);
}


/// The project column names name no column twice.
proof fn lemma_project_columns_distinct()
    ensures
        forall|i: int, j: int|
            0 <= i < j < 10 ==> #[trigger] project_columns()[i] != #[trigger] project_columns()[j],
{
    reveal_strlit("Project ID");
    reveal_strlit("Sales Org");
    reveal_strlit("End Customer Name");
    reveal_strlit("Project Name");
    reveal_strlit("Manager");
    reveal_strlit("Other Stakeholder");
    reveal_strlit("Start");
    reveal_strlit("Finish");
    reveal_strlit("On Hold");
    reveal_strlit("On Hold Comment");
    let c = project_columns();
    assert forall|i: int, j: int| 0 <= i < j < 10 implies #[trigger] c[i] != #[trigger] c[j] by {
        if c[i] == c[j] {
            assert(c[i].len() == c[j].len());
            assert(c[i][0] == c[j][0]);
            if c[i].len() > 1 {
                assert(c[i][1] == c[j][1]);
            }
            if c[i].len() > 2 {
                assert(c[i][2] == c[j][2]);
            }
            if c[i].len() > 7 {
                assert(c[i][7] == c[j][7]);
            }
        }
    }
}

proof fn lemma_no_duplicate_in_columns(p: int)
    requires
        0 <= p <= 10,
    ensures
        first_duplicate_from(project_columns(), p) is None,
    decreases 10 - p,
{
    if p < 10 {
        lemma_no_duplicate_in_columns(p + 1);
        lemma_project_columns_distinct();
        let c = project_columns();
        assert(!c.take(p).contains(c[p])) by {
            if c.take(p).contains(c[p]) {
                let i = choose|i: int| 0 <= i < p && c.take(p)[i] == c[p];
                assert(c[i] == c.take(p)[i]);
            }
        }
    }
}

proof fn lemma_no_missing_in_columns(k: int)
    requires
        0 <= k <= 10,
    ensures
        first_missing_from(project_columns(), k) is None,
    decreases 10 - k,
{
    if k < 10 {
        lemma_no_missing_in_columns(k + 1);
        assert(project_columns()[k] == project_columns()[k]);
    }
}

/// A row read by position (the header could not be read) gives the same
/// project as the row read under a header that names its columns in the
/// order of the project's fields: "Project ID", "Sales Org", "End Customer
/// Name", "Project Name", "Manager", "Other Stakeholder", "Start",
/// "Finish", "On Hold", "On Hold Comment".
pub proof fn law_positional_row_reads_as_declared_columns(
    fields: Seq<Seq<char>>,
    pos: Option<(u64, u64, u64)>,
)
    requires
        fields.len() >= 10,
    ensures
        project_of_row(None, fields, pos) == project_of_row(
            Some(
                seq![
                    lit("Project ID"),
                    lit("Sales Org"),
                    lit("End Customer Name"),
                    lit("Project Name"),
                    lit("Manager"),
                    lit("Other Stakeholder"),
                    lit("Start"),
                    lit("Finish"),
                    lit("On Hold"),
                    lit("On Hold Comment"),
                ],
            ),
            fields,
            pos,
        ),
{
    let h = seq![
        lit("Project ID"),
        lit("Sales Org"),
        lit("End Customer Name"),
        lit("Project Name"),
        lit("Manager"),
        lit("Other Stakeholder"),
        lit("Start"),
        lit("Finish"),
        lit("On Hold"),
        lit("On Hold Comment"),
    ];
    assert(h =~= project_columns());
    lemma_no_duplicate_in_columns(0);
    lemma_no_missing_in_columns(0);
    assert forall|i: int| 0 <= i < 10 implies column_text(h, fields, #[trigger] h[i]) == fields[i] by {
        lemma_named_column_text(h, fields, i);
    }
}

} // verus!
