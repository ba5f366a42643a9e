pub mod csv_loader;
pub mod csv_reader;
pub mod repositories;
