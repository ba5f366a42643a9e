//! The decisions of the terminal interface; the prompts and printing
//! around them are done by the program.
use vstd::prelude::*;
use crate::db::repositories::in_memory_repository::InMemoryRepository;
use crate::db::repositories::project_repository::{
    lookup_project, remove_project, ProjectRepositoryTrait,
};
use crate::models::forecast::{month_commit, Forecast, ForecastView};
use crate::services::forecast_service::{forecast_rows_view, ForecastByProjectManager};
use crate::models::project::{opt_view, Project};
use crate::services::project_service::{manager_name, sanitized_comment, ProjectService};
use crate::text::{
    ends_with, ends_with_spec, is_blank, lowercase, to_lowercase, trim_spec, uppercase,
};
use crate::utils::utils::{amount_text, currency_symbol_spec, format_currency, truncate_string};

verus! {

/// A choice of the main menu.
#[derive(Clone, Copy, Debug, PartialEq, Eq, Structural)]
pub enum MenuAction {
    ShowProjectsWithoutForecast,
    ShowOnHoldProjects,
    ShowForecastsByProjectManager,
    ShowProjectsByProjectManager,
    Exit,
    Invalid,
}

/// The action of the menu entry at index `selection`.
pub fn menu_action(selection: usize) -> (r: MenuAction)
    ensures
        r == (if selection == 0 {
            MenuAction::ShowProjectsWithoutForecast
        } else if selection == 1 {
            MenuAction::ShowOnHoldProjects
        } else if selection == 2 {
            MenuAction::ShowForecastsByProjectManager
        } else if selection == 3 {
            MenuAction::ShowProjectsByProjectManager
        } else if selection == 4 {
            MenuAction::Exit
        } else {
            MenuAction::Invalid
        }),
{
    if selection == 0 {
        MenuAction::ShowProjectsWithoutForecast
    } else if selection == 1 {
        MenuAction::ShowOnHoldProjects
    } else if selection == 2 {
        MenuAction::ShowForecastsByProjectManager
    } else if selection == 3 {
        MenuAction::ShowProjectsByProjectManager
    } else if selection == 4 {
        MenuAction::Exit
    } else {
        MenuAction::Invalid
    }
}

/// The message for a path to a file that does not exist.
pub open spec fn missing_file_message(path: Seq<char>) -> Seq<char> {
    "File '"@ + path + "' does not exist. Please provide a valid file path."@
}

/// The message for a path without the ".csv" extension.
pub open spec fn not_csv_message(path: Seq<char>) -> Seq<char> {
    "File '"@ + path + "' is not a CSV file. Please provide a file with .csv extension."@
}

/// Checks a path given for a CSV file, knowing whether a file exists
/// there: an error when it does not, or when the lower-case path does not
/// end with ".csv".
pub fn validate_csv_file_path(file_path: &str, exists: bool) -> (r: Result<(), String>)
    ensures
        !exists ==> (r matches Err(m) && m@ == missing_file_message(file_path@)),
        exists && !ends_with_spec(lowercase(file_path@), ".csv"@) ==> (r matches Err(m) && m@
            == not_csv_message(file_path@)),
        exists && ends_with_spec(lowercase(file_path@), ".csv"@) ==> r is Ok,
{
    if !exists {
        let mut m = "File '".to_owned();
        m.append(file_path);
        m.append("' does not exist. Please provide a valid file path.");
        return Err(m);
    }
    let lower = to_lowercase(file_path);
    if !ends_with(lower.as_str(), ".csv") {
        let mut m = "File '".to_owned();
        m.append(file_path);
        m.append("' is not a CSV file. Please provide a file with .csv extension.");
        return Err(m);
    }
    Ok(())
}

/// The id of the project that never has a forecast and is left out of the
/// reports.
pub open spec fn excluded_project_id() -> Seq<char> {
    "S00000072027"@
}

/// Deletes the project that never has a forecast; tells whether it was
/// there.
pub fn remove_excluded_project(repo: &mut InMemoryRepository) -> (r: bool)
    requires
        old(repo).wf(),
    ensures
        final(repo).wf(),
        r == (lookup_project(old(repo).projects(), excluded_project_id()) is Some),
        final(repo).projects() == remove_project(old(repo).projects(), excluded_project_id()),
        final(repo).forecasts() == old(repo).forecasts(),
{
    ProjectRepositoryTrait::delete_by_id(repo, "S00000072027")
}

/// The currency in which the totals of a manager's forecasts are shown:
/// that of the first forecast, or "USD" when there is none.
pub fn group_currency_code(group: &ForecastByProjectManager) -> (r: &str)
    ensures
        r@ == (if group.forecasts@.len() > 0 {
            group.forecasts@[0].0.currency@
        } else {
            "USD"@
        }),
{
    if group.forecasts.len() > 0 {
        group.forecasts[0].0.currency.as_str()
    } else {
        "USD"
    }
}

/// The total of one monthly commit over the rows of a group.
pub open spec fn month_total(rows: Seq<(ForecastView, Option<Seq<char>>)>, month: int) -> int
    decreases rows.len(),
{
    if rows.len() == 0 {
        0
    } else {
        month_total(rows.drop_last(), month) + month_commit(rows.last().0, month)
    }
}

proof fn lemma_month_total_bound(rows: Seq<(ForecastView, Option<Seq<char>>)>, month: int)
    ensures
        -rows.len() * 0x8000_0000_0000_0000 <= month_total(rows, month) <= rows.len()
            * 0x7FFF_FFFF_FFFF_FFFF,
    decreases rows.len(),
{
    if rows.len() > 0 {
        lemma_month_total_bound(rows.drop_last(), month);
    }
}

/// The totals, in cents, of each of the six monthly commits over a
/// manager's forecasts.
pub fn group_month_totals(group: &ForecastByProjectManager) -> (r: [i128; 6])
    ensures
        forall|m: int|
            0 <= m < 6 ==> r[m] as int == month_total(
                forecast_rows_view(group.forecasts@),
                m + 1,
            ),
{
    let ghost rows = forecast_rows_view(group.forecasts@);
    let mut totals: [i128; 6] = [0, 0, 0, 0, 0, 0];
    let mut i: usize = 0;
    while i < group.forecasts.len()
        invariant
            i <= group.forecasts@.len(),
            rows == forecast_rows_view(group.forecasts@),
            forall|m: int| 0 <= m < 6 ==> totals[m] as int == month_total(rows.take(i as int), m + 1),
        decreases group.forecasts@.len() - i,
    {
        let ghost prefix = rows.take(i + 1);
        assert(prefix.drop_last() == rows.take(i as int));
        assert(prefix.last().0 == group.forecasts@[i as int].0@);
        assert((i as int + 1) * 0x8000_0000_0000_0000 <= 0x7FFF_FFFF_FFFF_FFFF_FFFF_FFFF_FFFF_FFFF)
            by (nonlinear_arith)
            requires
                i < usize::MAX,
                usize::MAX <= 0xFFFF_FFFF_FFFF_FFFF,
        ;
        proof {
            lemma_month_total_bound(rows.take(i as int), 1);
            lemma_month_total_bound(rows.take(i as int), 2);
            lemma_month_total_bound(rows.take(i as int), 3);
            lemma_month_total_bound(rows.take(i as int), 4);
            lemma_month_total_bound(rows.take(i as int), 5);
            lemma_month_total_bound(rows.take(i as int), 6);
        }
        let f = &group.forecasts[i].0;
        totals[0] = totals[0] + f.month1_labor_revenue_commit as i128;
        totals[1] = totals[1] + f.month2_labor_revenue_commit as i128;
        totals[2] = totals[2] + f.month3_labor_revenue_commit as i128;
        totals[3] = totals[3] + f.month4_labor_revenue_commit as i128;
        totals[4] = totals[4] + f.month5_labor_revenue_commit as i128;
        totals[5] = totals[5] + f.month6_labor_revenue_commit as i128;
        i = i + 1;
    }
    assert(rows.take(group.forecasts@.len() as int) == rows);
    totals
}

/// `s` cut to at most `max` characters.
pub open spec fn truncated(s: Seq<char>, max: int) -> Seq<char> {
    if s.len() <= max {
        s
    } else {
        s.take(max)
    }
}

/// The cells of a project in the table of projects without a forecast:
/// id, customer (at most 44 characters), project name (at most 94) and
/// manager name.
pub fn project_without_forecast_cells(project: &Project) -> (r: (String, String, String, String))
    ensures
        r.0@ == project@.project_id,
        r.1@ == truncated(project@.end_customer_name, 44),
        r.2@ == truncated(project@.project_name, 94),
        r.3@ == manager_name(project@.project_manager),
{
    (
        project.project_id.clone(),
        truncate_string(project.end_customer_name.as_str(), 44).to_owned(),
        truncate_string(project.project_name.as_str(), 94).to_owned(),
        ProjectService::extract_project_manager_name(project.project_manager.as_str()).to_owned(),
    )
}

/// The cells of a project in the table of on-hold projects: id, customer
/// (at most 44 characters), project name (at most 94), manager name (at
/// most 32) and the sanitized hold comment (at most 128; empty when there
/// is none).
pub fn on_hold_project_cells(project: &Project) -> (r: (String, String, String, String, String))
    ensures
        r.0@ == project@.project_id,
        r.1@ == truncated(project@.end_customer_name, 44),
        r.2@ == truncated(project@.project_name, 94),
        r.3@ == truncated(manager_name(project@.project_manager), 32),
        r.4@ == truncated(
            sanitized_comment(
                match project@.on_hold_comment {
                    Some(c) => c,
                    None => Seq::empty(),
                },
            ),
            128,
        ),
{
    let manager = ProjectService::extract_project_manager_name(project.project_manager.as_str());
    let comment: &str = match &project.on_hold_comment {
        Some(c) => c.as_str(),
        None => "",
    };
    proof {
        reveal_strlit("");
        assert(""@ =~= Seq::<char>::empty());
    }
    let sanitized = ProjectService::sanitize_on_hold_comment(comment);
    (
        project.project_id.clone(),
        truncate_string(project.end_customer_name.as_str(), 44).to_owned(),
        truncate_string(project.project_name.as_str(), 94).to_owned(),
        truncate_string(manager, 32).to_owned(),
        truncate_string(sanitized.as_str(), 128).to_owned(),
    )
}

/// A customer name as shown in the forecasts table: at most 44 characters,
/// or "N/A" when the forecast's project is not stored.
pub fn customer_cell(customer: &Option<String>) -> (r: String)
    ensures
        r@ == match crate::models::project::opt_view(*customer) {
            Some(c) => truncated(c, 44),
            None => "N/A"@,
        },
{
    match customer {
        Some(c) => truncate_string(c.as_str(), 44).to_owned(),
        None => "N/A".to_owned(),
    }
}

/// The contract total and remaining values as shown in the projects table:
/// formatted in the forecast's currency, or "N/A" for both when the
/// project has no forecast.
pub fn contract_cells(contract: &Option<(i64, i64, String, String)>) -> (r: (String, String))
    ensures
        match contract {
            Some(c) => r.0@ == amount_text(
                c.0 as int,
                currency_symbol_spec(uppercase(c.2@)),
            ) && r.1@ == amount_text(c.1 as int, currency_symbol_spec(uppercase(c.2@))),
            None => r.0@ == "N/A"@ && r.1@ == "N/A"@,
        },
{
    match contract {
        Some(c) => (
            format_currency(c.0 as i128, c.2.as_str()),
            format_currency(c.1 as i128, c.2.as_str()),
        ),
        None => ("N/A".to_owned(), "N/A".to_owned()),
    }
}

/// An amount of cents as shown in a currency: with the symbol of the
/// upper-case currency code.
pub open spec fn currency_text(cents: int, code: Seq<char>) -> Seq<char> {
    amount_text(cents, currency_symbol_spec(uppercase(code)))
}

/// The currency in which the totals of a group's rows are shown.
pub open spec fn rows_currency(rows: Seq<(ForecastView, Option<Seq<char>>)>) -> Seq<char> {
    if rows.len() > 0 {
        rows[0].0.currency
    } else {
        "USD"@
    }
}

/// The cells of a forecast in the table of a manager's forecasts: project
/// id, customer (as `customer_cell` shows it), project name (at most 94
/// characters) and the six monthly commits in the forecast's currency.
pub fn forecast_row_cells(forecast: &Forecast, customer: &Option<String>) -> (r: (
    String,
    String,
    String,
    Vec<String>,
))
    ensures
        r.0@ == forecast@.project_id,
        r.1@ == match opt_view(*customer) {
            Some(c) => truncated(c, 44),
            None => "N/A"@,
        },
        r.2@ == truncated(forecast@.project_name, 94),
        r.3@.len() == 6,
        forall|m: int|
            0 <= m < 6 ==> (#[trigger] r.3@[m])@ == currency_text(
                month_commit(forecast@, m + 1),
                forecast@.currency,
            ),
{
    let code = forecast.currency.as_str();
    let mut months: Vec<String> = Vec::new();
    months.push(format_currency(forecast.month1_labor_revenue_commit as i128, code));
    months.push(format_currency(forecast.month2_labor_revenue_commit as i128, code));
    months.push(format_currency(forecast.month3_labor_revenue_commit as i128, code));
    months.push(format_currency(forecast.month4_labor_revenue_commit as i128, code));
    months.push(format_currency(forecast.month5_labor_revenue_commit as i128, code));
    months.push(format_currency(forecast.month6_labor_revenue_commit as i128, code));
    (
        forecast.project_id.clone(),
        customer_cell(customer),
        truncate_string(forecast.project_name.as_str(), 94).to_owned(),
        months,
    )
}

/// The cells of the totals row of a manager's forecasts: the six monthly
/// totals in the currency of the group's first forecast ("USD" when there
/// is none).
pub fn forecast_total_cells(group: &ForecastByProjectManager) -> (r: Vec<String>)
    ensures
        r@.len() == 6,
        forall|m: int|
            0 <= m < 6 ==> (#[trigger] r@[m])@ == currency_text(
                month_total(forecast_rows_view(group.forecasts@), m + 1),
                rows_currency(forecast_rows_view(group.forecasts@)),
            ),
{
    let totals = group_month_totals(group);
    let code = group_currency_code(group);
    proof {
        reveal_strlit("USD");
        if group.forecasts@.len() > 0 {
            assert(forecast_rows_view(group.forecasts@)[0].0 == group.forecasts@[0].0@);
        }
    }
    let mut r: Vec<String> = Vec::new();
    let mut m: usize = 0;
    while m < 6
        invariant
            m <= 6,
            code@ == rows_currency(forecast_rows_view(group.forecasts@)),
            forall|k: int|
                0 <= k < 6 ==> totals[k] as int == month_total(
                    forecast_rows_view(group.forecasts@),
                    k + 1,
                ),
            r@.len() == m,
            forall|k: int|
                0 <= k < m ==> (#[trigger] r@[k])@ == currency_text(
                    month_total(forecast_rows_view(group.forecasts@), k + 1),
                    rows_currency(forecast_rows_view(group.forecasts@)),
                ),
        decreases 6 - m,
    {
        r.push(format_currency(totals[m], code));
        m = m + 1;
    }
    r
}

/// The cells of a project in the table of a manager's projects: id,
/// customer (at most 44 characters), project name (at most 94), start and
/// end dates, and the contract total and remaining values as
/// `contract_cells` shows them.
pub fn project_row_cells(project: &Project, contract: &Option<(i64, i64, String, String)>) -> (r: (
    String,
    String,
    String,
    String,
    String,
    (String, String),
))
    ensures
        r.0@ == project@.project_id,
        r.1@ == truncated(project@.end_customer_name, 44),
        r.2@ == truncated(project@.project_name, 94),
        r.3@ == project@.start_date,
        r.4@ == project@.end_date,
        match contract {
            Some(c) => r.5.0@ == currency_text(c.0 as int, c.2@) && r.5.1@ == currency_text(
                c.1 as int,
                c.2@,
            ),
            None => r.5.0@ == "N/A"@ && r.5.1@ == "N/A"@,
        },
{
    (
        project.project_id.clone(),
        truncate_string(project.end_customer_name.as_str(), 44).to_owned(),
        truncate_string(project.project_name.as_str(), 94).to_owned(),
        project.start_date.clone(),
        project.end_date.clone(),
        contract_cells(contract),
    )
}

/// What the answer to a prompt for a CSV file path leads to.
#[derive(Debug, PartialEq, Eq)]
pub enum PathAnswer {
    /// The answer is blank: ask again.
    Blank,
    /// The path is refused, with the reason: ask again.
    Refused(String),
    /// The path is taken.
    Accepted,
}

/// Judges an answer to a prompt for a CSV file path, knowing whether a file
/// exists at it: a blank answer is asked again, then the path is checked
/// as `validate_csv_file_path` does.
pub fn judge_path_answer(answer: &str, exists: bool) -> (r: PathAnswer)
    ensures
        trim_spec(answer@).len() == 0 ==> r == PathAnswer::Blank,
        trim_spec(answer@).len() > 0 && !exists ==> (r matches PathAnswer::Refused(m) && m@
            == missing_file_message(answer@)),
        trim_spec(answer@).len() > 0 && exists && !ends_with_spec(lowercase(answer@), ".csv"@)
            ==> (r matches PathAnswer::Refused(m) && m@ == not_csv_message(answer@)),
        trim_spec(answer@).len() > 0 && exists && ends_with_spec(lowercase(answer@), ".csv"@)
            ==> r == PathAnswer::Accepted,
{
    if is_blank(answer) {
        return PathAnswer::Blank;
    }
    match validate_csv_file_path(answer, exists) {
        Ok(()) => PathAnswer::Accepted,
        Err(m) => PathAnswer::Refused(m),
    }
}

} // verus!
