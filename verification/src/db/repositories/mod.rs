pub mod forecast_repository;
pub mod in_memory_repository;
pub mod keyed;
pub mod project_repository;
