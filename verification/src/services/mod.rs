pub mod forecast_service;
pub mod project_service;
pub mod report_laws;
