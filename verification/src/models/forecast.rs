//! A revenue forecast as read from the forecasts CSV file.
//!
//! Money amounts are held as whole cents (hundredths of the currency unit).
use vstd::prelude::*;
use crate::models::date::Date;

verus! {

/// The forecast of one project, keyed by `project_id`.
#[derive(Debug)]
pub struct Forecast {
    pub sold_to_company: String,
    pub project_manager: String,
    pub project_name: String,
    pub project_id: String,
    pub class: String,
    pub start_date: Date,
    pub finish_date: Date,
    /// Contract total value, in cents.
    pub contract_total_value: i64,
    /// Contract remaining value, in cents.
    pub contract_remaining_value: i64,
    pub currency: String,
    /// Labor revenue committed for each of the six forecast months, in cents.
    pub month1_labor_revenue_commit: i64,
    pub month2_labor_revenue_commit: i64,
    pub month3_labor_revenue_commit: i64,
    pub month4_labor_revenue_commit: i64,
    pub month5_labor_revenue_commit: i64,
    pub month6_labor_revenue_commit: i64,
}

/// The mathematical value of a `Forecast`.
pub struct ForecastView {
    pub sold_to_company: Seq<char>,
    pub project_manager: Seq<char>,
    pub project_name: Seq<char>,
    pub project_id: Seq<char>,
    pub class: Seq<char>,
    /// Year, month and day.
    pub start_date: (i32, u32, u32),
    pub finish_date: (i32, u32, u32),
    pub contract_total_value: i64,
    pub contract_remaining_value: i64,
    pub currency: Seq<char>,
    pub month1_labor_revenue_commit: i64,
    pub month2_labor_revenue_commit: i64,
    pub month3_labor_revenue_commit: i64,
    pub month4_labor_revenue_commit: i64,
    pub month5_labor_revenue_commit: i64,
    pub month6_labor_revenue_commit: i64,
}

impl View for Forecast {
    type V = ForecastView;

    open spec fn view(&self) -> ForecastView {
        ForecastView {
            sold_to_company: self.sold_to_company@,
            project_manager: self.project_manager@,
            project_name: self.project_name@,
            project_id: self.project_id@,
            class: self.class@,
            start_date: date_view(self.start_date),
            finish_date: date_view(self.finish_date),
            contract_total_value: self.contract_total_value,
            contract_remaining_value: self.contract_remaining_value,
            currency: self.currency@,
            month1_labor_revenue_commit: self.month1_labor_revenue_commit,
            month2_labor_revenue_commit: self.month2_labor_revenue_commit,
            month3_labor_revenue_commit: self.month3_labor_revenue_commit,
            month4_labor_revenue_commit: self.month4_labor_revenue_commit,
            month5_labor_revenue_commit: self.month5_labor_revenue_commit,
            month6_labor_revenue_commit: self.month6_labor_revenue_commit,
        }
    }
}

/// Year, month and day of a date.
pub open spec fn date_view(d: Date) -> (i32, u32, u32) {
    (d.spec_year(), d.spec_month(), d.spec_day())
}

/// The views of a sequence of forecasts.
pub open spec fn forecasts_view(s: Seq<Forecast>) -> Seq<ForecastView> {
    s.map_values(|f: Forecast| f@)
}

/// The sum of the six monthly labor revenue commits, in cents.
pub open spec fn six_month_total(f: ForecastView) -> int {
    f.month1_labor_revenue_commit + f.month2_labor_revenue_commit + f.month3_labor_revenue_commit
        + f.month4_labor_revenue_commit + f.month5_labor_revenue_commit
        + f.month6_labor_revenue_commit
}

/// The labor revenue commit of month `month` (1 to 6; 6 for any larger
/// number), in cents.
pub open spec fn month_commit(f: ForecastView, month: int) -> int {
    if month == 1 {
        f.month1_labor_revenue_commit as int
    } else if month == 2 {
        f.month2_labor_revenue_commit as int
    } else if month == 3 {
        f.month3_labor_revenue_commit as int
    } else if month == 4 {
        f.month4_labor_revenue_commit as int
    } else if month == 5 {
        f.month5_labor_revenue_commit as int
    } else {
        f.month6_labor_revenue_commit as int
    }
}

impl Forecast {
    /// The labor revenue commit of month `month` (0 for the first, up to 5
    /// for the sixth), in cents.
    pub fn commit_of_month(&self, month: usize) -> (r: i64)
        requires
            month < 6,
        ensures
            r == month_commit(self@, month + 1),
    {
        if month == 0 {
            self.month1_labor_revenue_commit
        } else if month == 1 {
            self.month2_labor_revenue_commit
        } else if month == 2 {
            self.month3_labor_revenue_commit
        } else if month == 3 {
            self.month4_labor_revenue_commit
        } else if month == 4 {
            self.month5_labor_revenue_commit
        } else {
            self.month6_labor_revenue_commit
        }
    }

    /// Whether the six monthly labor revenue commits sum to zero.
    pub fn has_zero_total(&self) -> (r: bool)
        ensures
            r == (six_month_total(self@) == 0),
    {
        let total: i128 = self.month1_labor_revenue_commit as i128
            + self.month2_labor_revenue_commit as i128 + self.month3_labor_revenue_commit as i128
            + self.month4_labor_revenue_commit as i128 + self.month5_labor_revenue_commit as i128
            + self.month6_labor_revenue_commit as i128;
        total == 0
    }
}

impl Clone for Forecast {
    fn clone(&self) -> (r: Self)
        ensures
            r@ == self@,
    {
        Forecast {
            sold_to_company: self.sold_to_company.clone(),
            project_manager: self.project_manager.clone(),
            project_name: self.project_name.clone(),
            project_id: self.project_id.clone(),
            class: self.class.clone(),
            start_date: self.start_date,
            finish_date: self.finish_date,
            contract_total_value: self.contract_total_value,
            contract_remaining_value: self.contract_remaining_value,
            currency: self.currency.clone(),
            month1_labor_revenue_commit: self.month1_labor_revenue_commit,
            month2_labor_revenue_commit: self.month2_labor_revenue_commit,
            month3_labor_revenue_commit: self.month3_labor_revenue_commit,
            month4_labor_revenue_commit: self.month4_labor_revenue_commit,
            month5_labor_revenue_commit: self.month5_labor_revenue_commit,
            month6_labor_revenue_commit: self.month6_labor_revenue_commit,
        }
    }
}

} // verus!
