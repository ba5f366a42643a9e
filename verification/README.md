# rev_report

A revenue report over two CSV exports: a projects file and a forecasts
file. The library loads both into an in-memory repository keyed by project
id and answers the questions of the terminal report: which projects lack a
forecast, which are on hold, who the account executives are, the projects
and forecasts of each project manager with their monthly totals, and the
revenue forecast by account executive, by sales org and overall.

The functions of the library are verified with Verus against contracts
written over mathematical models (`Seq`, `Set`, views of the records),
except five small wrappers whose contracts are trusted, each around one
outside call: `push_char` (`String::push`), `to_uppercase` and
`to_lowercase` (`str::to_uppercase`, `str::to_lowercase`, in
`src/text.rs`), `chrono_date_exists` (chrono's `NaiveDate::from_ymd_opt`, in
`src/models/date.rs`) and `read_csv_records` (the `csv` crate's record
reader, in `src/db/csv_reader.rs`). Money is held as whole cents.

Layout:

- `src/models`: projects, forecasts and calendar dates.
- `src/db/repositories`: the stores of projects and forecasts, with the laws
  of storing, reading and deleting by id.
- `src/db/csv_loader.rs`, `src/db/csv_reader.rs`: loading the CSV files
  (records are read by the `csv` crate); loading a file twice is proved to
  change nothing.
- `src/services`: the reports, and `report_laws.rs` with their properties
  (each project or forecast filed once, in the group of its manager or
  account executive; together the groups are a permutation of the store).
- `src/text.rs`, `src/parse.rs`, `src/utils`: character-level string
  helpers, number and date parsing, currency formatting.
- `src/ui/terminal.rs`: the decisions and table cells of the terminal
  interface.
- `app/main.rs`: the program: command line, logging, prompts, reading the
  files and printing the tables.
