#![allow(unused_imports, dead_code)]
use rev_report::db::repositories::forecast_repository::{ForecastRepository, ForecastRepositoryTrait};
use rev_report::db::repositories::in_memory_repository::InMemoryRepository;
use rev_report::db::repositories::project_repository::{ProjectRepository, ProjectRepositoryTrait};
use rev_report::models::date::Date;
use rev_report::models::forecast::Forecast;
use rev_report::models::project::Project;
use rev_report::services::forecast_service::ForecastService;
use rev_report::services::project_service::ProjectService;

fn create_test_project(project_id: &str, project_name: &str) -> Project {
    Project {
        project_id: project_id.to_string(),
        sales_org: "TEST-ORG".to_string(),
        end_customer_name: "Test Customer".to_string(),
        project_name: project_name.to_string(),
        project_manager: "Test Manager".to_string(),
        account_executive: Some("Test AE".to_string()),
        start_date: "2024-01-01".to_string(),
        end_date: "2024-12-31".to_string(),
        on_hold: false,
        on_hold_comment: None,
    }
}

/// Amounts are in cents: 100000.0 is written 10_000_000.
fn create_test_forecast(project_id: &str, project_name: &str) -> Forecast {
    Forecast {
        sold_to_company: "Test Company".to_string(),
        project_manager: "Test Manager".to_string(),
        project_name: project_name.to_string(),
        project_id: project_id.to_string(),
        class: "Test Class".to_string(),
        start_date: Date::from_ymd_opt(2024, 1, 1).unwrap(),
        finish_date: Date::from_ymd_opt(2024, 12, 31).unwrap(),
        contract_total_value: 10_000_000,
        contract_remaining_value: 7_500_000,
        currency: "USD".to_string(),
        month1_labor_revenue_commit: 1_000_000,
        month2_labor_revenue_commit: 1_500_000,
        month3_labor_revenue_commit: 2_000_000,
        month4_labor_revenue_commit: 1_500_000,
        month5_labor_revenue_commit: 1_000_000,
        month6_labor_revenue_commit: 500_000,
    }
}

#[test]
fn forecast_repository_tests_test_forecast_repository_new() {
    let mut repo = ForecastRepository::new();
    let forecasts = repo.find_all();
    assert_eq!(forecasts.len(), 0);
}

#[test]
fn forecast_repository_tests_test_forecast_repository_insert() {
    let mut repo = ForecastRepository::new();
    let forecast = create_test_forecast("PROJ-001", "Test Project 1");
    repo.insert(forecast);
    
    let forecasts = repo.find_all();
    assert_eq!(forecasts.len(), 1);
    assert_eq!(forecasts[0].project_id, "PROJ-001");
}

#[test]
fn forecast_repository_tests_test_forecast_repository_insert_multiple() {
    let mut repo = ForecastRepository::new();
    let forecast1 = create_test_forecast("PROJ-001", "Test Project 1");
    let forecast2 = create_test_forecast("PROJ-002", "Test Project 2");
    let forecast3 = create_test_forecast("PROJ-003", "Test Project 3");
    
    repo.insert(forecast1);
    repo.insert(forecast2);
    repo.insert(forecast3);
    
    let forecasts = repo.find_all();
    assert_eq!(forecasts.len(), 3);
}

#[test]
fn forecast_repository_tests_test_forecast_repository_find_by_id_exists() {
    let mut repo = ForecastRepository::new();
    let forecast = create_test_forecast("PROJ-001", "Test Project 1");
    repo.insert(forecast);
    
    let found = repo.find_by_id("PROJ-001");
    assert!(found.is_some());
    let found_forecast = found.unwrap();
    assert_eq!(found_forecast.project_id, "PROJ-001");
    assert_eq!(found_forecast.project_name, "Test Project 1");
    assert_eq!(found_forecast.contract_total_value, 10_000_000);
}

#[test]
fn forecast_repository_tests_test_forecast_repository_find_by_id_not_exists() {
    let mut repo = ForecastRepository::new();
    let forecast = create_test_forecast("PROJ-001", "Test Project 1");
    repo.insert(forecast);
    
    let found = repo.find_by_id("PROJ-999");
    assert!(found.is_none());
}

#[test]
fn forecast_repository_tests_test_forecast_repository_insert_updates_existing() {
    let mut repo = ForecastRepository::new();
    let forecast1 = create_test_forecast("PROJ-001", "Test Project 1");
    repo.insert(forecast1);
    
    // Insert a new forecast with the same project_id but different values
    let mut forecast2 = create_test_forecast("PROJ-001", "Updated Project Name");
    forecast2.contract_total_value = 20_000_000;
    forecast2.currency = "EUR".to_string();
    repo.insert(forecast2);
    
    // Should only have one forecast, and it should be the updated one
    let forecasts = repo.find_all();
    assert_eq!(forecasts.len(), 1);
    assert_eq!(forecasts[0].project_name, "Updated Project Name");
    assert_eq!(forecasts[0].contract_total_value, 20_000_000);
    assert_eq!(forecasts[0].currency, "EUR");
}

#[test]
fn forecast_repository_tests_test_forecast_repository_find_all_empty() {
    let mut repo = ForecastRepository::new();
    let forecasts = repo.find_all();
    assert_eq!(forecasts.len(), 0);
}
