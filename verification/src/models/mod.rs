pub mod date;
pub mod forecast;
pub mod project;
