#![allow(unused_imports, dead_code)]
use rev_report::color::srgb::Srgb;
use rev_report::db::csv_loader::{load_forecasts_from_csv, load_projects_from_csv, LoadError};
use rev_report::db::repositories::forecast_repository::ForecastRepositoryTrait;
use rev_report::db::repositories::in_memory_repository::InMemoryRepository;
use rev_report::db::repositories::project_repository::ProjectRepositoryTrait;
use rev_report::logging::LogLevel;
use rev_report::models::date::Date;
use rev_report::models::forecast::Forecast;
use rev_report::models::project::Project;
use rev_report::services::forecast_service::{ForecastByProjectManager, ForecastService};
use rev_report::services::project_service::ProjectService;
use rev_report::text::{
    collapse_white_space_chars, insert_sorted_unique, is_blank, str_lt, trim, white_space,
};
use rev_report::ui::terminal::{
    contract_cells, customer_cell, forecast_row_cells, forecast_total_cells, group_currency_code,
    group_month_totals, judge_path_answer, menu_action, on_hold_project_cells, project_row_cells,
    project_without_forecast_cells, remove_excluded_project, validate_csv_file_path, MenuAction,
    PathAnswer,
};

fn project(id: &str, manager: &str) -> Project {
    Project {
        project_id: id.to_string(),
        sales_org: "ORG".to_string(),
        end_customer_name: "Customer".to_string(),
        project_name: "Name".to_string(),
        project_manager: manager.to_string(),
        account_executive: None,
        start_date: "2024-01-01".to_string(),
        end_date: "2024-12-31".to_string(),
        on_hold: false,
        on_hold_comment: None,
    }
}

fn forecast(id: &str, currency: &str, months: [i64; 6]) -> Forecast {
    Forecast {
        sold_to_company: "Company".to_string(),
        project_manager: "Manager".to_string(),
        project_name: "Name".to_string(),
        project_id: id.to_string(),
        class: "FP".to_string(),
        start_date: Date::from_ymd_opt(2024, 1, 1).unwrap(),
        finish_date: Date::from_ymd_opt(2024, 12, 31).unwrap(),
        contract_total_value: 100,
        contract_remaining_value: 50,
        currency: currency.to_string(),
        month1_labor_revenue_commit: months[0],
        month2_labor_revenue_commit: months[1],
        month3_labor_revenue_commit: months[2],
        month4_labor_revenue_commit: months[3],
        month5_labor_revenue_commit: months[4],
        month6_labor_revenue_commit: months[5],
    }
}

#[test]
fn menu_action_maps_each_entry() {
    assert_eq!(menu_action(0), MenuAction::ShowProjectsWithoutForecast);
    assert_eq!(menu_action(1), MenuAction::ShowOnHoldProjects);
    assert_eq!(menu_action(2), MenuAction::ShowForecastsByProjectManager);
    assert_eq!(menu_action(3), MenuAction::ShowProjectsByProjectManager);
    assert_eq!(menu_action(4), MenuAction::Exit);
    assert_eq!(menu_action(5), MenuAction::Invalid);
    assert_eq!(menu_action(usize::MAX), MenuAction::Invalid);
}

#[test]
fn validate_csv_file_path_cases() {
    assert_eq!(validate_csv_file_path("data/projects.csv", true), Ok(()));
    assert_eq!(validate_csv_file_path("DATA/PROJECTS.CSV", true), Ok(()));
    assert_eq!(
        validate_csv_file_path("missing.csv", false),
        Err("File 'missing.csv' does not exist. Please provide a valid file path.".to_string())
    );
    assert_eq!(
        validate_csv_file_path("notes.txt", true),
        Err("File 'notes.txt' is not a CSV file. Please provide a file with .csv extension."
            .to_string())
    );
    assert!(validate_csv_file_path("csv", true).is_err());
}

#[test]
fn remove_excluded_project_deletes_only_that_project() {
    let mut repo = InMemoryRepository::new();
    ProjectRepositoryTrait::insert(&mut repo, project("S00000072027", "M"));
    ProjectRepositoryTrait::insert(&mut repo, project("P-1", "M"));
    ForecastRepositoryTrait::insert(&mut repo, forecast("S00000072027", "USD", [1; 6]));
    assert!(remove_excluded_project(&mut repo));
    assert!(ProjectRepositoryTrait::find_by_id(&repo, "S00000072027").is_none());
    assert!(ProjectRepositoryTrait::find_by_id(&repo, "P-1").is_some());
    assert!(ForecastRepositoryTrait::find_by_id(&repo, "S00000072027").is_some());
    assert!(!remove_excluded_project(&mut repo));
}

#[test]
fn group_currency_and_totals() {
    let empty = ForecastByProjectManager { project_manager: "M".to_string(), forecasts: vec![] };
    assert_eq!(group_currency_code(&empty), "USD");
    assert_eq!(group_month_totals(&empty), [0; 6]);

    let group = ForecastByProjectManager {
        project_manager: "M".to_string(),
        forecasts: vec![
            (forecast("A", "EUR", [100, 200, 300, 400, 500, 600]), None),
            (forecast("B", "USD", [1, 2, 3, 4, 5, -6]), Some("Cust".to_string())),
        ],
    };
    assert_eq!(group_currency_code(&group), "EUR");
    assert_eq!(group_month_totals(&group), [101, 202, 303, 404, 505, 594]);
}

#[test]
fn table_cells() {
    let mut p = project("P-1", "Smith, John {ACC123}");
    p.end_customer_name = "C".repeat(50);
    p.project_name = "N".repeat(100);
    let (id, customer, name, manager) = project_without_forecast_cells(&p);
    assert_eq!(id, "P-1");
    assert_eq!(customer, "C".repeat(44));
    assert_eq!(name, "N".repeat(94));
    assert_eq!(manager, "Smith, John ");

    p.on_hold = true;
    p.on_hold_comment = Some("  waiting\non   customer \r\n".to_string());
    let cells = on_hold_project_cells(&p);
    assert_eq!(cells.3, "Smith, John ");
    assert_eq!(cells.4, "waiting on customer");

    p.on_hold_comment = None;
    assert_eq!(on_hold_project_cells(&p).4, "");

    assert_eq!(customer_cell(&None), "N/A");
    assert_eq!(customer_cell(&Some("short".to_string())), "short");
    assert_eq!(customer_cell(&Some("x".repeat(45))), "x".repeat(44));

    assert_eq!(contract_cells(&None), ("N/A".to_string(), "N/A".to_string()));
    assert_eq!(
        contract_cells(&Some((123456, -5, "gbp".to_string(), "FP".to_string()))),
        ("£1,234.56".to_string(), "-£0.05".to_string())
    );
}

#[test]
fn log_level_names() {
    assert_eq!(LogLevel::Trace.as_str(), "trace");
    assert_eq!(LogLevel::Debug.as_str(), "debug");
    assert_eq!(LogLevel::Info.as_str(), "info");
    assert_eq!(LogLevel::Warn.as_str(), "warn");
    assert_eq!(LogLevel::Error.as_str(), "error");
}

#[test]
fn srgb_new_keeps_channels() {
    let c = Srgb::new(1u8, 2u8, 3u8);
    assert_eq!((c.r, c.g, c.b), (1, 2, 3));
}

#[test]
fn date_from_ymd_checks_the_calendar() {
    assert!(Date::from_ymd_opt(2024, 2, 29).is_some());
    assert!(Date::from_ymd_opt(2023, 2, 29).is_none());
    assert!(Date::from_ymd_opt(2024, 4, 31).is_none());
    assert!(Date::from_ymd_opt(2024, 13, 1).is_none());
    assert!(Date::from_ymd_opt(2024, 0, 1).is_none());
    let d = Date::from_ymd_opt(1999, 12, 31).unwrap();
    assert_eq!((d.year(), d.month(), d.day()), (1999, 12, 31));
}

#[test]
fn white_space_agrees_with_char_is_whitespace() {
    for code in 0u32..=0x10FFFF {
        if let Some(c) = char::from_u32(code) {
            assert_eq!(white_space(c), c.is_whitespace(), "code point {:x}", code);
        }
    }
}

#[test]
fn trim_agrees_with_str_trim() {
    let samples = [
        "", " ", "a", "  a  ", "\t\nab c\r\n", "\u{3000}x\u{a0}", "x\u{2028}", "\u{85}",
    ];
    for s in samples {
        assert_eq!(trim(s), s.trim());
        assert_eq!(is_blank(s), s.trim().is_empty());
    }
}

#[test]
fn str_lt_agrees_with_string_order() {
    let samples = ["", "a", "ab", "b", "B", "é", "ab\u{0}", "Zz"];
    for a in samples {
        for b in samples {
            assert_eq!(str_lt(a, b), a < b, "{:?} < {:?}", a, b);
        }
    }
}

#[test]
fn insert_sorted_unique_keeps_order_and_uniqueness() {
    let mut v: Vec<String> = Vec::new();
    for s in ["m", "b", "z", "b", "a", "m"] {
        insert_sorted_unique(&mut v, s.to_string());
    }
    assert_eq!(v, vec!["a", "b", "m", "z"]);
}

#[test]
fn collapse_white_space_joins_words_with_one_space() {
    let v: Vec<char> = "  one \n two\t\tthree  ".chars().collect();
    let r: String = collapse_white_space_chars(&v).into_iter().collect();
    assert_eq!(r, "one two three");
    let e: Vec<char> = " \n ".chars().collect();
    assert!(collapse_white_space_chars(&e).is_empty());
}

#[test]
fn repository_find_after_insert_and_delete_undoes_insert() {
    let mut repo = InMemoryRepository::new();
    ProjectRepositoryTrait::insert(&mut repo, project("A", "M1"));
    ProjectRepositoryTrait::insert(&mut repo, project("B", "M2"));
    // Inserting again under the same id replaces the stored project.
    ProjectRepositoryTrait::insert(&mut repo, project("A", "M3"));
    assert_eq!(ProjectRepositoryTrait::find_all(&repo).len(), 2);
    assert_eq!(ProjectRepositoryTrait::find_by_id(&repo, "A").unwrap().project_manager, "M3");
    assert_eq!(ProjectRepositoryTrait::find_by_id(&repo, "B").unwrap().project_manager, "M2");

    ProjectRepositoryTrait::insert(&mut repo, project("C", "M4"));
    assert!(ProjectRepositoryTrait::delete_by_id(&mut repo, "C"));
    let ids: Vec<String> =
        ProjectRepositoryTrait::find_all(&repo).into_iter().map(|p| p.project_id).collect();
    assert_eq!(ids, vec!["A", "B"]);
    assert!(!ProjectRepositoryTrait::delete_by_id(&mut repo, "C"));
}

#[test]
fn forecast_repository_insert_is_idempotent() {
    let mut repo = InMemoryRepository::new();
    ForecastRepositoryTrait::insert(&mut repo, forecast("A", "USD", [1; 6]));
    ForecastRepositoryTrait::insert(&mut repo, forecast("A", "USD", [1; 6]));
    ForecastRepositoryTrait::insert(&mut repo, forecast("B", "USD", [2; 6]));
    let all = ForecastRepositoryTrait::find_all(&repo);
    assert_eq!(all.len(), 2);
    assert_eq!(all[0].project_id, "A");
    assert_eq!(all[1].project_id, "B");
    assert_eq!(ProjectRepositoryTrait::find_all(&repo).len(), 0);
}

#[test]
fn loading_the_same_projects_twice_changes_nothing() {
    let csv = "\"Project ID\",\"Sales Org\",\"End Customer Name\",\"Project Name\",\"Manager\",\"Other Stakeholder\",\"Start\",\"Finish\",\"On Hold Comment\",\"On Hold\"\n\
\"P-1\",\"O\",\"C\",\"N\",\"M\",\"AE\",\"s\",\"f\",\"\",\"TRUE\"\n\
\"P-2\",\"O\",\"C\",\"N\",\"M\",,\"s\",\"f\",\"c\",\"no\"\n";
    let mut repo = InMemoryRepository::new();
    assert_eq!(load_projects_from_csv(&mut repo, csv.as_bytes()).unwrap(), 2);
    let first: Vec<(String, bool)> = ProjectRepositoryTrait::find_all(&repo)
        .into_iter()
        .map(|p| (p.project_id, p.on_hold))
        .collect();
    assert_eq!(load_projects_from_csv(&mut repo, csv.as_bytes()).unwrap(), 2);
    let second: Vec<(String, bool)> = ProjectRepositoryTrait::find_all(&repo)
        .into_iter()
        .map(|p| (p.project_id, p.on_hold))
        .collect();
    assert_eq!(first, second);
    assert_eq!(first, vec![("P-1".to_string(), true), ("P-2".to_string(), false)]);
}

#[test]
fn project_csv_header_errors() {
    let mut repo = InMemoryRepository::new();
    let missing = "\"Project ID\",\"Sales Org\"\n\"P-1\",\"O\"\n";
    assert!(matches!(
        load_projects_from_csv(&mut repo, missing.as_bytes()),
        Err(LoadError::MissingField(_, _))
    ));
    let duplicate = "\"Project ID\",\"Project ID\"\n\"P-1\",\"P-2\"\n";
    assert!(matches!(
        load_projects_from_csv(&mut repo, duplicate.as_bytes()),
        Err(LoadError::DuplicateField(_, _))
    ));
    assert_eq!(ProjectRepositoryTrait::find_all(&repo).len(), 0);
}

#[test]
fn forecast_table_cells() {
    let f = forecast("P-9", "aud", [123456, 0, -1, 100, 99999999, 5]);
    let (id, customer, name, months) = forecast_row_cells(&f, &Some("Customer X".to_string()));
    assert_eq!(id, "P-9");
    assert_eq!(customer, "Customer X");
    assert_eq!(name, "Name");
    assert_eq!(
        months,
        vec!["A$1,234.56", "A$0.00", "-A$0.01", "A$1.00", "A$999,999.99", "A$0.05"]
    );
    assert_eq!(forecast_row_cells(&f, &None).1, "N/A");

    let group = ForecastByProjectManager {
        project_manager: "M".to_string(),
        forecasts: vec![
            (forecast("A", "eur", [100, 200, 300, 400, 500, 600]), None),
            (forecast("B", "USD", [100000, 2, 3, 4, 5, -600]), None),
        ],
    };
    assert_eq!(
        forecast_total_cells(&group),
        vec!["€1,001.00", "€2.02", "€3.03", "€4.04", "€5.05", "€0.00"]
    );
    let empty = ForecastByProjectManager { project_manager: "M".to_string(), forecasts: vec![] };
    assert_eq!(forecast_total_cells(&empty), vec!["$0.00"; 6]);
}

#[test]
fn project_table_cells() {
    let p = project("P-1", "M");
    let cells = project_row_cells(&p, &Some((150000, 2500, "CAD".to_string(), "FP".to_string())));
    assert_eq!(cells.0, "P-1");
    assert_eq!(cells.1, "Customer");
    assert_eq!(cells.2, "Name");
    assert_eq!(cells.3, "2024-01-01");
    assert_eq!(cells.4, "2024-12-31");
    assert_eq!(cells.5, ("C$1,500.00".to_string(), "C$25.00".to_string()));
    let none = project_row_cells(&p, &None);
    assert_eq!(none.5, ("N/A".to_string(), "N/A".to_string()));
}

#[test]
fn judge_path_answer_cases() {
    assert_eq!(judge_path_answer("   ", true), PathAnswer::Blank);
    assert_eq!(judge_path_answer("", false), PathAnswer::Blank);
    assert_eq!(judge_path_answer("a.csv", true), PathAnswer::Accepted);
    assert_eq!(
        judge_path_answer("a.csv", false),
        PathAnswer::Refused(
            "File 'a.csv' does not exist. Please provide a valid file path.".to_string()
        )
    );
    assert_eq!(
        judge_path_answer("a.xls", true),
        PathAnswer::Refused(
            "File 'a.xls' is not a CSV file. Please provide a file with .csv extension."
                .to_string()
        )
    );
}

#[test]
fn on_hold_projects_grouped_by_account_executive() {
    let mut repo = InMemoryRepository::new();
    let mut a = project("A", "M");
    a.on_hold = true;
    a.account_executive = Some("  Zed ".to_string());
    let mut b = project("B", "M");
    b.on_hold = true;
    b.account_executive = Some("   ".to_string());
    let mut c = project("C", "M");
    c.on_hold = true;
    c.account_executive = Some("Amy".to_string());
    let mut d = project("D", "M");
    d.on_hold = false;
    d.account_executive = Some("Amy".to_string());
    let mut e = project("E", "M");
    e.on_hold = true;
    e.account_executive = None;
    let mut f = project("F", "M");
    f.on_hold = true;
    f.account_executive = Some("Zed".to_string());
    for p in [a, b, c, d, e, f] {
        ProjectRepositoryTrait::insert(&mut repo, p);
    }
    let service = ProjectService::new(&repo);
    let groups = service.get_on_hold_projects_by_account_executive();
    let shown: Vec<(String, Vec<String>)> = groups
        .into_iter()
        .map(|(k, ps)| (k, ps.into_iter().map(|p| p.project_id).collect()))
        .collect();
    assert_eq!(
        shown,
        vec![
            ("Amy".to_string(), vec!["C".to_string()]),
            ("No Account Executive".to_string(), vec!["B".to_string(), "E".to_string()]),
            ("Zed".to_string(), vec!["A".to_string(), "F".to_string()]),
        ]
    );

    let empty = InMemoryRepository::new();
    assert!(ProjectService::new(&empty).get_on_hold_projects_by_account_executive().is_empty());
}

#[test]
fn sanitized_comment_is_one_line_and_stable() {
    for s in ["", "\n\r", " a\n\nb \r c ", "line one\r\nline two\n", "x\u{2028}y"] {
        let once = ProjectService::sanitize_on_hold_comment(s);
        assert!(!once.contains('\n') && !once.contains('\r'));
        assert_eq!(once.trim(), once);
        assert_eq!(ProjectService::sanitize_on_hold_comment(&once), once);
    }
}

#[test]
fn manager_name_is_a_brace_free_prefix() {
    for s in ["Doe, Jane {jd}", "{x}", "Plain", "", "a{b{c"] {
        let name = ProjectService::extract_project_manager_name(s);
        assert!(s.starts_with(name));
        assert!(!name.contains('{'));
        assert_eq!(ProjectService::extract_project_manager_name(name), name);
    }
}

#[test]
fn every_project_is_in_its_managers_group_once() {
    let mut repo = InMemoryRepository::new();
    for (id, m) in [("1", "B{x}"), ("2", "A"), ("3", "B{y}"), ("4", "A{z}"), ("5", "C")] {
        ProjectRepositoryTrait::insert(&mut repo, project(id, m));
    }
    let groups = ProjectService::new(&repo).get_projects_by_project_manager();
    let shown: Vec<(String, Vec<String>)> = groups
        .iter()
        .map(|g| (g.project_manager.clone(), g.projects.iter().map(|(p, _)| p.project_id.clone()).collect()))
        .collect();
    assert_eq!(
        shown,
        vec![
            ("A".to_string(), vec!["2".to_string(), "4".to_string()]),
            ("B".to_string(), vec!["1".to_string(), "3".to_string()]),
            ("C".to_string(), vec!["5".to_string()]),
        ]
    );
    let total: usize = groups.iter().map(|g| g.projects.len()).sum();
    assert_eq!(total, 5);
}

#[test]
fn loading_the_same_forecasts_twice_changes_nothing() {
    let csv = ",,,,,,,,,,d1,d2,d3,d4,d5,d6\n\
Sold to Company,Project Manager,Project,ID,Class,Contract Start Date,Contract Finish Date,Contract Total Value,Contract Remaining Value,Currency,Labor Rev Committ,Labor Rev Committ,Labor Rev Committ,Labor Rev Committ,Labor Rev Committ,Labor Rev Committ\n\
C,M,P,X-1,FP,01/01/2024,31/12/2024,10.5,5,USD,1,2,3,4,5,6\n\
C,M,P,X-2,FP,bad,31/12/2024,,5,USD,1,2,3,4,5,6\n\
C,M,P2,X-1,FP,01/01/2024,31/12/2024,11,5,USD,1,2,3,4,5,7\n";
    let mut repo = InMemoryRepository::new();
    assert_eq!(load_forecasts_from_csv(&mut repo, csv.as_bytes()).unwrap(), 3);
    let first: Vec<(String, String, i64)> = ForecastRepositoryTrait::find_all(&repo)
        .into_iter()
        .map(|f| (f.project_id, f.project_name, f.contract_total_value))
        .collect();
    assert_eq!(load_forecasts_from_csv(&mut repo, csv.as_bytes()).unwrap(), 3);
    let second: Vec<(String, String, i64)> = ForecastRepositoryTrait::find_all(&repo)
        .into_iter()
        .map(|f| (f.project_id, f.project_name, f.contract_total_value))
        .collect();
    assert_eq!(first, second);
    assert_eq!(
        first,
        vec![("X-1".to_string(), "P2".to_string(), 1100), ("X-2".to_string(), "P".to_string(), 0)]
    );
    let x2 = ForecastRepositoryTrait::find_by_id(&repo, "X-2").unwrap();
    assert_eq!((x2.start_date.year(), x2.start_date.month(), x2.start_date.day()), (1970, 1, 1));
}

#[test]
fn every_forecast_is_in_its_managers_group_once() {
    let mut repo = InMemoryRepository::new();
    for (id, m) in [("1", "B{x}"), ("2", "A"), ("3", "B{y}"), ("4", "A{z}"), ("5", "C")] {
        let mut f = forecast(id, "USD", [1, 0, 0, 0, 0, 0]);
        f.project_manager = m.to_string();
        ForecastRepositoryTrait::insert(&mut repo, f);
    }
    let groups = ForecastService::new(&repo).get_forecasts_by_project_manager();
    let shown: Vec<(String, Vec<String>)> = groups
        .iter()
        .map(|g| (g.project_manager.clone(), g.forecasts.iter().map(|(f, _)| f.project_id.clone()).collect()))
        .collect();
    assert_eq!(
        shown,
        vec![
            ("A".to_string(), vec!["2".to_string(), "4".to_string()]),
            ("B".to_string(), vec!["1".to_string(), "3".to_string()]),
            ("C".to_string(), vec!["5".to_string()]),
        ]
    );
    assert!(groups.iter().all(|g| !g.forecasts.is_empty()));
    let total: usize = groups.iter().map(|g| g.forecasts.len()).sum();
    assert_eq!(total, 5);
}

#[test]
fn on_hold_groups_hold_each_on_hold_project_once() {
    let mut repo = InMemoryRepository::new();
    for (id, hold, ae) in [("1", true, Some("Zed")), ("2", false, Some("Zed")), ("3", true, None), ("4", true, Some(" Zed"))] {
        let mut p = project(id, "M");
        p.on_hold = hold;
        p.account_executive = ae.map(|s| s.to_string());
        ProjectRepositoryTrait::insert(&mut repo, p);
    }
    let groups = ProjectService::new(&repo).get_on_hold_projects_by_account_executive();
    assert!(groups.iter().all(|(_, ps)| !ps.is_empty()));
    let mut ids: Vec<String> = groups
        .iter()
        .flat_map(|(_, ps)| ps.iter().map(|p| p.project_id.clone()))
        .collect();
    ids.sort();
    assert_eq!(ids, vec!["1".to_string(), "3".to_string(), "4".to_string()]);
}
