#![allow(unused_imports, dead_code)]
use rev_report::db::repositories::forecast_repository::{ForecastRepository, ForecastRepositoryTrait};
use rev_report::db::repositories::in_memory_repository::InMemoryRepository;
use rev_report::db::repositories::project_repository::{ProjectRepository, ProjectRepositoryTrait};
use rev_report::models::date::Date;
use rev_report::models::forecast::Forecast;
use rev_report::models::project::Project;
use rev_report::services::forecast_service::ForecastService;
use rev_report::services::project_service::ProjectService;

fn create_test_project(project_id: &str, project_name: &str) -> Project {
    Project {
        project_id: project_id.to_string(),
        sales_org: "TEST-ORG".to_string(),
        end_customer_name: "Test Customer".to_string(),
        project_name: project_name.to_string(),
        project_manager: "Test Manager".to_string(),
        account_executive: Some("Test AE".to_string()),
        start_date: "2024-01-01".to_string(),
        end_date: "2024-12-31".to_string(),
        on_hold: false,
        on_hold_comment: None,
    }
}

/// Amounts are in cents: 100000.0 is written 10_000_000.
fn create_test_forecast(project_id: &str, project_name: &str) -> Forecast {
    Forecast {
        sold_to_company: "Test Company".to_string(),
        project_manager: "Test Manager".to_string(),
        project_name: project_name.to_string(),
        project_id: project_id.to_string(),
        class: "Test Class".to_string(),
        start_date: Date::from_ymd_opt(2024, 1, 1).unwrap(),
        finish_date: Date::from_ymd_opt(2024, 12, 31).unwrap(),
        contract_total_value: 10_000_000,
        contract_remaining_value: 7_500_000,
        currency: "USD".to_string(),
        month1_labor_revenue_commit: 1_000_000,
        month2_labor_revenue_commit: 1_500_000,
        month3_labor_revenue_commit: 2_000_000,
        month4_labor_revenue_commit: 1_500_000,
        month5_labor_revenue_commit: 1_000_000,
        month6_labor_revenue_commit: 500_000,
    }
}

#[test]
fn test_forecast_service_get_forecasts_by_project_manager_empty_repository() {
    let mut repo = InMemoryRepository::new();
    let forecast_service = ForecastService::new(&repo);
    let result = forecast_service.get_forecasts_by_project_manager();

    assert_eq!(result.len(), 0);
}

#[test]
fn test_forecast_service_get_forecasts_by_project_manager_single_manager() {
    let mut repo = InMemoryRepository::new();
    let project1 = create_test_project("PROJ-001", "Project 1");
    let project2 = create_test_project("PROJ-002", "Project 2");
    let mut forecast1 = create_test_forecast("PROJ-001", "Project 1");
    forecast1.project_manager = "Smith, John".to_string();
    let mut forecast2 = create_test_forecast("PROJ-002", "Project 2");
    forecast2.project_manager = "Smith, John".to_string();

    ProjectRepositoryTrait::insert(&mut repo, project1);
    ProjectRepositoryTrait::insert(&mut repo, project2);
    ForecastRepositoryTrait::insert(&mut repo, forecast1);
    ForecastRepositoryTrait::insert(&mut repo, forecast2);

    let forecast_service = ForecastService::new(&repo);
    let result = forecast_service.get_forecasts_by_project_manager();

    assert_eq!(result.len(), 1);
    assert_eq!(result[0].project_manager, "Smith, John");
    assert_eq!(result[0].forecasts.len(), 2);
}

#[test]
fn test_forecast_service_get_forecasts_by_project_manager_multiple_managers() {
    let mut repo = InMemoryRepository::new();
    let project1 = create_test_project("PROJ-001", "Project 1");
    let project2 = create_test_project("PROJ-002", "Project 2");
    let project3 = create_test_project("PROJ-003", "Project 3");
    let mut forecast1 = create_test_forecast("PROJ-001", "Project 1");
    forecast1.project_manager = "Smith, John".to_string();
    let mut forecast2 = create_test_forecast("PROJ-002", "Project 2");
    forecast2.project_manager = "Doe, Jane".to_string();
    let mut forecast3 = create_test_forecast("PROJ-003", "Project 3");
    forecast3.project_manager = "Smith, John".to_string();

    ProjectRepositoryTrait::insert(&mut repo, project1);
    ProjectRepositoryTrait::insert(&mut repo, project2);
    ProjectRepositoryTrait::insert(&mut repo, project3);
    ForecastRepositoryTrait::insert(&mut repo, forecast1);
    ForecastRepositoryTrait::insert(&mut repo, forecast2);
    ForecastRepositoryTrait::insert(&mut repo, forecast3);

    let forecast_service = ForecastService::new(&repo);
    let result = forecast_service.get_forecasts_by_project_manager();

    assert_eq!(result.len(), 2);
    // Should be sorted alphabetically
    assert_eq!(result[0].project_manager, "Doe, Jane");
    assert_eq!(result[0].forecasts.len(), 1);
    assert_eq!(result[1].project_manager, "Smith, John");
    assert_eq!(result[1].forecasts.len(), 2);
}

#[test]
fn test_forecast_service_get_forecasts_by_project_manager_with_account_id() {
    let mut repo = InMemoryRepository::new();
    let project1 = create_test_project("PROJ-001", "Project 1");
    let mut forecast1 = create_test_forecast("PROJ-001", "Project 1");
    forecast1.project_manager = "Smith, John{js055528@broadcom.net}".to_string();

    ProjectRepositoryTrait::insert(&mut repo, project1);
    ForecastRepositoryTrait::insert(&mut repo, forecast1);

    let forecast_service = ForecastService::new(&repo);
    let result = forecast_service.get_forecasts_by_project_manager();

    assert_eq!(result.len(), 1);
    assert_eq!(result[0].project_manager, "Smith, John");
    assert_eq!(result[0].forecasts.len(), 1);
}

#[test]
fn test_forecast_service_get_forecasts_by_project_manager_without_project() {
    let mut repo = InMemoryRepository::new();
    let mut forecast1 = create_test_forecast("PROJ-001", "Project 1");
    forecast1.project_manager = "Smith, John".to_string();

    // Don't insert the project, so customer name should be None
    ForecastRepositoryTrait::insert(&mut repo, forecast1);

    let forecast_service = ForecastService::new(&repo);
    let result = forecast_service.get_forecasts_by_project_manager();

    assert_eq!(result.len(), 1);
    assert_eq!(result[0].project_manager, "Smith, John");
    assert_eq!(result[0].forecasts.len(), 1);
    // Customer name should be None since project doesn't exist
    assert!(result[0].forecasts[0].1.is_none());
}

#[test]
fn test_forecast_service_get_forecasts_by_project_manager_with_customer_name() {
    let mut repo = InMemoryRepository::new();
    let project1 = create_test_project("PROJ-001", "Project 1");
    let mut forecast1 = create_test_forecast("PROJ-001", "Project 1");
    forecast1.project_manager = "Smith, John".to_string();

    ProjectRepositoryTrait::insert(&mut repo, project1);
    ForecastRepositoryTrait::insert(&mut repo, forecast1);

    let forecast_service = ForecastService::new(&repo);
    let result = forecast_service.get_forecasts_by_project_manager();

    assert_eq!(result.len(), 1);
    assert_eq!(result[0].forecasts.len(), 1);
    // Customer name should be Some since project exists
    assert!(result[0].forecasts[0].1.is_some());
    assert_eq!(result[0].forecasts[0].1.as_ref().unwrap(), "Test Customer");
}

#[test]
fn test_forecast_service_get_forecasts_by_project_manager_sorting() {
    let mut repo = InMemoryRepository::new();
    let project1 = create_test_project("PROJ-001", "Project 1");
    let project2 = create_test_project("PROJ-002", "Project 2");
    let project3 = create_test_project("PROJ-003", "Project 3");
    let mut forecast1 = create_test_forecast("PROJ-001", "Project 1");
    forecast1.project_manager = "Zebra, Zoe".to_string();
    let mut forecast2 = create_test_forecast("PROJ-002", "Project 2");
    forecast2.project_manager = "Apple, Adam".to_string();
    let mut forecast3 = create_test_forecast("PROJ-003", "Project 3");
    forecast3.project_manager = "Baker, Bob".to_string();

    ProjectRepositoryTrait::insert(&mut repo, project1);
    ProjectRepositoryTrait::insert(&mut repo, project2);
    ProjectRepositoryTrait::insert(&mut repo, project3);
    ForecastRepositoryTrait::insert(&mut repo, forecast1);
    ForecastRepositoryTrait::insert(&mut repo, forecast2);
    ForecastRepositoryTrait::insert(&mut repo, forecast3);

    let forecast_service = ForecastService::new(&repo);
    let result = forecast_service.get_forecasts_by_project_manager();

    assert_eq!(result.len(), 3);
    // Should be sorted alphabetically
    assert_eq!(result[0].project_manager, "Apple, Adam");
    assert_eq!(result[1].project_manager, "Baker, Bob");
    assert_eq!(result[2].project_manager, "Zebra, Zoe");
}

#[test]
fn test_forecast_service_get_revenue_summary_by_account_executive_empty_repository() {
    let mut repo = InMemoryRepository::new();
    let forecast_service = ForecastService::new(&repo);
    let result = forecast_service.get_revenue_summary_by_account_executive();

    assert_eq!(result.len(), 0);
}

#[test]
fn test_forecast_service_get_revenue_summary_by_account_executive_single_ae_single_project() {
    let mut repo = InMemoryRepository::new();
    let mut project1 = create_test_project("PROJ-001", "Project 1");
    project1.account_executive = Some("AE One".to_string());
    let mut forecast1 = create_test_forecast("PROJ-001", "Project 1");
    forecast1.month1_labor_revenue_commit = 1_000_000;
    forecast1.month2_labor_revenue_commit = 2_000_000;
    forecast1.month3_labor_revenue_commit = 3_000_000;
    forecast1.month4_labor_revenue_commit = 4_000_000;
    forecast1.month5_labor_revenue_commit = 5_000_000;
    forecast1.month6_labor_revenue_commit = 6_000_000;

    ProjectRepositoryTrait::insert(&mut repo, project1);
    ForecastRepositoryTrait::insert(&mut repo, forecast1);

    let forecast_service = ForecastService::new(&repo);
    let result = forecast_service.get_revenue_summary_by_account_executive();

    assert_eq!(result.len(), 1);
    assert_eq!(result[0].account_executive, "AE One");
    assert_eq!(result[0].month1_total, 1_000_000);
    assert_eq!(result[0].month2_total, 2_000_000);
    assert_eq!(result[0].month3_total, 3_000_000);
    assert_eq!(result[0].month4_total, 4_000_000);
    assert_eq!(result[0].month5_total, 5_000_000);
    assert_eq!(result[0].month6_total, 6_000_000);
}

#[test]
fn test_forecast_service_get_revenue_summary_by_account_executive_single_ae_multiple_projects() {
    let mut repo = InMemoryRepository::new();
    let mut project1 = create_test_project("PROJ-001", "Project 1");
    project1.account_executive = Some("AE One".to_string());
    let mut project2 = create_test_project("PROJ-002", "Project 2");
    project2.account_executive = Some("AE One".to_string());
    let mut forecast1 = create_test_forecast("PROJ-001", "Project 1");
    forecast1.month1_labor_revenue_commit = 1_000_000;
    forecast1.month2_labor_revenue_commit = 2_000_000;
    forecast1.month3_labor_revenue_commit = 3_000_000;
    forecast1.month4_labor_revenue_commit = 4_000_000;
    forecast1.month5_labor_revenue_commit = 5_000_000;
    forecast1.month6_labor_revenue_commit = 6_000_000;
    let mut forecast2 = create_test_forecast("PROJ-002", "Project 2");
    forecast2.month1_labor_revenue_commit = 500_000;
    forecast2.month2_labor_revenue_commit = 1_000_000;
    forecast2.month3_labor_revenue_commit = 1_500_000;
    forecast2.month4_labor_revenue_commit = 2_000_000;
    forecast2.month5_labor_revenue_commit = 2_500_000;
    forecast2.month6_labor_revenue_commit = 3_000_000;

    ProjectRepositoryTrait::insert(&mut repo, project1);
    ProjectRepositoryTrait::insert(&mut repo, project2);
    ForecastRepositoryTrait::insert(&mut repo, forecast1);
    ForecastRepositoryTrait::insert(&mut repo, forecast2);

    let forecast_service = ForecastService::new(&repo);
    let result = forecast_service.get_revenue_summary_by_account_executive();

    assert_eq!(result.len(), 1);
    assert_eq!(result[0].account_executive, "AE One");
    // Totals should be summed
    assert_eq!(result[0].month1_total, 1_500_000); // 10000 + 5000
    assert_eq!(result[0].month2_total, 3_000_000); // 20000 + 10000
    assert_eq!(result[0].month3_total, 4_500_000); // 30000 + 15000
    assert_eq!(result[0].month4_total, 6_000_000); // 40000 + 20000
    assert_eq!(result[0].month5_total, 7_500_000); // 50000 + 25000
    assert_eq!(result[0].month6_total, 9_000_000); // 60000 + 30000
}

#[test]
fn test_forecast_service_get_revenue_summary_by_account_executive_multiple_ae() {
    let mut repo = InMemoryRepository::new();
    let mut project1 = create_test_project("PROJ-001", "Project 1");
    project1.account_executive = Some("AE One".to_string());
    let mut project2 = create_test_project("PROJ-002", "Project 2");
    project2.account_executive = Some("AE Two".to_string());
    let mut project3 = create_test_project("PROJ-003", "Project 3");
    project3.account_executive = Some("AE One".to_string());
    let mut forecast1 = create_test_forecast("PROJ-001", "Project 1");
    forecast1.month1_labor_revenue_commit = 1_000_000;
    let mut forecast2 = create_test_forecast("PROJ-002", "Project 2");
    forecast2.month1_labor_revenue_commit = 2_000_000;
    let mut forecast3 = create_test_forecast("PROJ-003", "Project 3");
    forecast3.month1_labor_revenue_commit = 500_000;

    ProjectRepositoryTrait::insert(&mut repo, project1);
    ProjectRepositoryTrait::insert(&mut repo, project2);
    ProjectRepositoryTrait::insert(&mut repo, project3);
    ForecastRepositoryTrait::insert(&mut repo, forecast1);
    ForecastRepositoryTrait::insert(&mut repo, forecast2);
    ForecastRepositoryTrait::insert(&mut repo, forecast3);

    let forecast_service = ForecastService::new(&repo);
    let result = forecast_service.get_revenue_summary_by_account_executive();

    assert_eq!(result.len(), 2);
    // Should be sorted alphabetically
    assert_eq!(result[0].account_executive, "AE One");
    assert_eq!(result[0].month1_total, 1_500_000); // 10000 + 5000
    assert_eq!(result[1].account_executive, "AE Two");
    assert_eq!(result[1].month1_total, 2_000_000);
}

#[test]
fn test_forecast_service_get_revenue_summary_by_account_executive_no_ae() {
    let mut repo = InMemoryRepository::new();
    let mut project1 = create_test_project("PROJ-001", "Project 1");
    project1.account_executive = None; // No Account Executive
    let forecast1 = create_test_forecast("PROJ-001", "Project 1");

    ProjectRepositoryTrait::insert(&mut repo, project1);
    ForecastRepositoryTrait::insert(&mut repo, forecast1);

    let forecast_service = ForecastService::new(&repo);
    let result = forecast_service.get_revenue_summary_by_account_executive();

    // Projects without Account Executive should be skipped
    assert_eq!(result.len(), 0);
}

#[test]
fn test_forecast_service_get_revenue_summary_by_account_executive_empty_ae() {
    let mut repo = InMemoryRepository::new();
    let mut project1 = create_test_project("PROJ-001", "Project 1");
    project1.account_executive = Some("".to_string()); // Empty Account Executive
    let forecast1 = create_test_forecast("PROJ-001", "Project 1");

    ProjectRepositoryTrait::insert(&mut repo, project1);
    ForecastRepositoryTrait::insert(&mut repo, forecast1);

    let forecast_service = ForecastService::new(&repo);
    let result = forecast_service.get_revenue_summary_by_account_executive();

    // Projects with empty Account Executive should be skipped
    assert_eq!(result.len(), 0);
}

#[test]
fn test_forecast_service_get_revenue_summary_by_account_executive_no_forecast() {
    let mut repo = InMemoryRepository::new();
    let mut project1 = create_test_project("PROJ-001", "Project 1");
    project1.account_executive = Some("AE One".to_string());
    // Don't insert a forecast

    ProjectRepositoryTrait::insert(&mut repo, project1);

    let forecast_service = ForecastService::new(&repo);
    let result = forecast_service.get_revenue_summary_by_account_executive();

    // Projects without forecasts should be skipped
    assert_eq!(result.len(), 0);
}

#[test]
fn test_forecast_service_get_revenue_summary_by_account_executive_sorting() {
    let mut repo = InMemoryRepository::new();
    let mut project1 = create_test_project("PROJ-001", "Project 1");
    project1.account_executive = Some("Zebra, Zoe".to_string());
    let mut project2 = create_test_project("PROJ-002", "Project 2");
    project2.account_executive = Some("Apple, Adam".to_string());
    let mut project3 = create_test_project("PROJ-003", "Project 3");
    project3.account_executive = Some("Baker, Bob".to_string());
    let forecast1 = create_test_forecast("PROJ-001", "Project 1");
    let forecast2 = create_test_forecast("PROJ-002", "Project 2");
    let forecast3 = create_test_forecast("PROJ-003", "Project 3");

    ProjectRepositoryTrait::insert(&mut repo, project1);
    ProjectRepositoryTrait::insert(&mut repo, project2);
    ProjectRepositoryTrait::insert(&mut repo, project3);
    ForecastRepositoryTrait::insert(&mut repo, forecast1);
    ForecastRepositoryTrait::insert(&mut repo, forecast2);
    ForecastRepositoryTrait::insert(&mut repo, forecast3);

    let forecast_service = ForecastService::new(&repo);
    let result = forecast_service.get_revenue_summary_by_account_executive();

    assert_eq!(result.len(), 3);
    // Should be sorted alphabetically
    assert_eq!(result[0].account_executive, "Apple, Adam");
    assert_eq!(result[1].account_executive, "Baker, Bob");
    assert_eq!(result[2].account_executive, "Zebra, Zoe");
}

#[test]
fn test_forecast_service_get_total_revenue_forecast_empty_repository() {
    let mut repo = InMemoryRepository::new();
    let forecast_service = ForecastService::new(&repo);
    let (m1, m2, m3, m4, m5, m6) = forecast_service.get_total_revenue_forecast();

    assert_eq!(m1, 0);
    assert_eq!(m2, 0);
    assert_eq!(m3, 0);
    assert_eq!(m4, 0);
    assert_eq!(m5, 0);
    assert_eq!(m6, 0);
}

#[test]
fn test_forecast_service_get_total_revenue_forecast_single_forecast() {
    let mut repo = InMemoryRepository::new();
    let mut forecast1 = create_test_forecast("PROJ-001", "Project 1");
    forecast1.month1_labor_revenue_commit = 1_000_000;
    forecast1.month2_labor_revenue_commit = 2_000_000;
    forecast1.month3_labor_revenue_commit = 3_000_000;
    forecast1.month4_labor_revenue_commit = 4_000_000;
    forecast1.month5_labor_revenue_commit = 5_000_000;
    forecast1.month6_labor_revenue_commit = 6_000_000;

    ForecastRepositoryTrait::insert(&mut repo, forecast1);

    let forecast_service = ForecastService::new(&repo);
    let (m1, m2, m3, m4, m5, m6) = forecast_service.get_total_revenue_forecast();

    assert_eq!(m1, 1_000_000);
    assert_eq!(m2, 2_000_000);
    assert_eq!(m3, 3_000_000);
    assert_eq!(m4, 4_000_000);
    assert_eq!(m5, 5_000_000);
    assert_eq!(m6, 6_000_000);
}

#[test]
fn test_forecast_service_get_total_revenue_forecast_multiple_forecasts() {
    let mut repo = InMemoryRepository::new();
    let mut forecast1 = create_test_forecast("PROJ-001", "Project 1");
    forecast1.month1_labor_revenue_commit = 1_000_000;
    forecast1.month2_labor_revenue_commit = 2_000_000;
    forecast1.month3_labor_revenue_commit = 3_000_000;
    forecast1.month4_labor_revenue_commit = 4_000_000;
    forecast1.month5_labor_revenue_commit = 5_000_000;
    forecast1.month6_labor_revenue_commit = 6_000_000;

    let mut forecast2 = create_test_forecast("PROJ-002", "Project 2");
    forecast2.month1_labor_revenue_commit = 500_000;
    forecast2.month2_labor_revenue_commit = 1_000_000;
    forecast2.month3_labor_revenue_commit = 1_500_000;
    forecast2.month4_labor_revenue_commit = 2_000_000;
    forecast2.month5_labor_revenue_commit = 2_500_000;
    forecast2.month6_labor_revenue_commit = 3_000_000;

    let mut forecast3 = create_test_forecast("PROJ-003", "Project 3");
    forecast3.month1_labor_revenue_commit = 200_000;
    forecast3.month2_labor_revenue_commit = 300_000;
    forecast3.month3_labor_revenue_commit = 500_000;
    forecast3.month4_labor_revenue_commit = 700_000;
    forecast3.month5_labor_revenue_commit = 1_100_000;
    forecast3.month6_labor_revenue_commit = 1_300_000;

    ForecastRepositoryTrait::insert(&mut repo, forecast1);
    ForecastRepositoryTrait::insert(&mut repo, forecast2);
    ForecastRepositoryTrait::insert(&mut repo, forecast3);

    let forecast_service = ForecastService::new(&repo);
    let (m1, m2, m3, m4, m5, m6) = forecast_service.get_total_revenue_forecast();

    // Totals should be summed across all forecasts
    assert_eq!(m1, 1_700_000); // 10000 + 5000 + 2000
    assert_eq!(m2, 3_300_000); // 20000 + 10000 + 3000
    assert_eq!(m3, 5_000_000); // 30000 + 15000 + 5000
    assert_eq!(m4, 6_700_000); // 40000 + 20000 + 7000
    assert_eq!(m5, 8_600_000); // 50000 + 25000 + 11000
    assert_eq!(m6, 10_300_000); // 60000 + 30000 + 13000
}

#[test]
fn test_forecast_service_get_revenue_summary_by_sales_org_empty_repository() {
    let mut repo = InMemoryRepository::new();
    let forecast_service = ForecastService::new(&repo);
    let result = forecast_service.get_revenue_summary_by_sales_org();

    assert_eq!(result.len(), 0);
}

#[test]
fn test_forecast_service_get_revenue_summary_by_sales_org_single_org_single_project() {
    let mut repo = InMemoryRepository::new();
    let mut project1 = create_test_project("PROJ-001", "Project 1");
    project1.sales_org = "ORG-ONE".to_string();
    let mut forecast1 = create_test_forecast("PROJ-001", "Project 1");
    forecast1.month1_labor_revenue_commit = 1_000_000;
    forecast1.month2_labor_revenue_commit = 2_000_000;
    forecast1.month3_labor_revenue_commit = 3_000_000;
    forecast1.month4_labor_revenue_commit = 4_000_000;
    forecast1.month5_labor_revenue_commit = 5_000_000;
    forecast1.month6_labor_revenue_commit = 6_000_000;

    ProjectRepositoryTrait::insert(&mut repo, project1);
    ForecastRepositoryTrait::insert(&mut repo, forecast1);

    let forecast_service = ForecastService::new(&repo);
    let result = forecast_service.get_revenue_summary_by_sales_org();

    assert_eq!(result.len(), 1);
    assert_eq!(result[0].sales_org, "ORG-ONE");
    assert_eq!(result[0].month1_total, 1_000_000);
    assert_eq!(result[0].month2_total, 2_000_000);
    assert_eq!(result[0].month3_total, 3_000_000);
    assert_eq!(result[0].month4_total, 4_000_000);
    assert_eq!(result[0].month5_total, 5_000_000);
    assert_eq!(result[0].month6_total, 6_000_000);
}

#[test]
fn test_forecast_service_get_revenue_summary_by_sales_org_single_org_multiple_projects() {
    let mut repo = InMemoryRepository::new();
    let mut project1 = create_test_project("PROJ-001", "Project 1");
    project1.sales_org = "ORG-ONE".to_string();
    let mut project2 = create_test_project("PROJ-002", "Project 2");
    project2.sales_org = "ORG-ONE".to_string();
    let mut forecast1 = create_test_forecast("PROJ-001", "Project 1");
    forecast1.month1_labor_revenue_commit = 1_000_000;
    forecast1.month2_labor_revenue_commit = 2_000_000;
    forecast1.month3_labor_revenue_commit = 3_000_000;
    forecast1.month4_labor_revenue_commit = 4_000_000;
    forecast1.month5_labor_revenue_commit = 5_000_000;
    forecast1.month6_labor_revenue_commit = 6_000_000;
    let mut forecast2 = create_test_forecast("PROJ-002", "Project 2");
    forecast2.month1_labor_revenue_commit = 500_000;
    forecast2.month2_labor_revenue_commit = 1_000_000;
    forecast2.month3_labor_revenue_commit = 1_500_000;
    forecast2.month4_labor_revenue_commit = 2_000_000;
    forecast2.month5_labor_revenue_commit = 2_500_000;
    forecast2.month6_labor_revenue_commit = 3_000_000;

    ProjectRepositoryTrait::insert(&mut repo, project1);
    ProjectRepositoryTrait::insert(&mut repo, project2);
    ForecastRepositoryTrait::insert(&mut repo, forecast1);
    ForecastRepositoryTrait::insert(&mut repo, forecast2);

    let forecast_service = ForecastService::new(&repo);
    let result = forecast_service.get_revenue_summary_by_sales_org();

    assert_eq!(result.len(), 1);
    assert_eq!(result[0].sales_org, "ORG-ONE");
    // Totals should be summed
    assert_eq!(result[0].month1_total, 1_500_000); // 10000 + 5000
    assert_eq!(result[0].month2_total, 3_000_000); // 20000 + 10000
    assert_eq!(result[0].month3_total, 4_500_000); // 30000 + 15000
    assert_eq!(result[0].month4_total, 6_000_000); // 40000 + 20000
    assert_eq!(result[0].month5_total, 7_500_000); // 50000 + 25000
    assert_eq!(result[0].month6_total, 9_000_000); // 60000 + 30000
}

#[test]
fn test_forecast_service_get_revenue_summary_by_sales_org_multiple_orgs() {
    let mut repo = InMemoryRepository::new();
    let mut project1 = create_test_project("PROJ-001", "Project 1");
    project1.sales_org = "ORG-ONE".to_string();
    let mut project2 = create_test_project("PROJ-002", "Project 2");
    project2.sales_org = "ORG-TWO".to_string();
    let mut project3 = create_test_project("PROJ-003", "Project 3");
    project3.sales_org = "ORG-ONE".to_string();
    let mut forecast1 = create_test_forecast("PROJ-001", "Project 1");
    forecast1.month1_labor_revenue_commit = 1_000_000;
    let mut forecast2 = create_test_forecast("PROJ-002", "Project 2");
    forecast2.month1_labor_revenue_commit = 2_000_000;
    let mut forecast3 = create_test_forecast("PROJ-003", "Project 3");
    forecast3.month1_labor_revenue_commit = 500_000;

    ProjectRepositoryTrait::insert(&mut repo, project1);
    ProjectRepositoryTrait::insert(&mut repo, project2);
    ProjectRepositoryTrait::insert(&mut repo, project3);
    ForecastRepositoryTrait::insert(&mut repo, forecast1);
    ForecastRepositoryTrait::insert(&mut repo, forecast2);
    ForecastRepositoryTrait::insert(&mut repo, forecast3);

    let forecast_service = ForecastService::new(&repo);
    let result = forecast_service.get_revenue_summary_by_sales_org();

    assert_eq!(result.len(), 2);
    // Should be sorted alphabetically
    assert_eq!(result[0].sales_org, "ORG-ONE");
    assert_eq!(result[0].month1_total, 1_500_000); // 10000 + 5000
    assert_eq!(result[1].sales_org, "ORG-TWO");
    assert_eq!(result[1].month1_total, 2_000_000);
}

#[test]
fn test_forecast_service_get_revenue_summary_by_sales_org_empty_sales_org() {
    let mut repo = InMemoryRepository::new();
    let mut project1 = create_test_project("PROJ-001", "Project 1");
    project1.sales_org = "".to_string(); // Empty Sales Org
    let forecast1 = create_test_forecast("PROJ-001", "Project 1");

    ProjectRepositoryTrait::insert(&mut repo, project1);
    ForecastRepositoryTrait::insert(&mut repo, forecast1);

    let forecast_service = ForecastService::new(&repo);
    let result = forecast_service.get_revenue_summary_by_sales_org();

    // Projects with empty Sales Org should be skipped
    assert_eq!(result.len(), 0);
}

#[test]
fn test_forecast_service_get_revenue_summary_by_sales_org_no_forecast() {
    let mut repo = InMemoryRepository::new();
    let mut project1 = create_test_project("PROJ-001", "Project 1");
    project1.sales_org = "ORG-ONE".to_string();
    // Don't insert a forecast

    ProjectRepositoryTrait::insert(&mut repo, project1);

    let forecast_service = ForecastService::new(&repo);
    let result = forecast_service.get_revenue_summary_by_sales_org();

    // Projects without forecasts should be skipped
    assert_eq!(result.len(), 0);
}

#[test]
fn test_forecast_service_get_revenue_summary_by_sales_org_sorting() {
    let mut repo = InMemoryRepository::new();
    let mut project1 = create_test_project("PROJ-001", "Project 1");
    project1.sales_org = "ZEBRA-ORG".to_string();
    let mut project2 = create_test_project("PROJ-002", "Project 2");
    project2.sales_org = "ALPHA-ORG".to_string();
    let mut project3 = create_test_project("PROJ-003", "Project 3");
    project3.sales_org = "BETA-ORG".to_string();
    let forecast1 = create_test_forecast("PROJ-001", "Project 1");
    let forecast2 = create_test_forecast("PROJ-002", "Project 2");
    let forecast3 = create_test_forecast("PROJ-003", "Project 3");

    ProjectRepositoryTrait::insert(&mut repo, project1);
    ProjectRepositoryTrait::insert(&mut repo, project2);
    ProjectRepositoryTrait::insert(&mut repo, project3);
    ForecastRepositoryTrait::insert(&mut repo, forecast1);
    ForecastRepositoryTrait::insert(&mut repo, forecast2);
    ForecastRepositoryTrait::insert(&mut repo, forecast3);

    let forecast_service = ForecastService::new(&repo);
    let result = forecast_service.get_revenue_summary_by_sales_org();

    assert_eq!(result.len(), 3);
    // Should be sorted alphabetically
    assert_eq!(result[0].sales_org, "ALPHA-ORG");
    assert_eq!(result[1].sales_org, "BETA-ORG");
    assert_eq!(result[2].sales_org, "ZEBRA-ORG");
}
