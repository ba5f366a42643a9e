//! Reports on forecasts: grouping by project manager, and revenue totals
//! by account executive, by sales org and overall.
use vstd::prelude::*;
use crate::db::repositories::forecast_repository::{lookup_forecast, ForecastRepositoryTrait};
use crate::db::repositories::in_memory_repository::InMemoryRepository;
use crate::db::repositories::project_repository::{lookup_project, ProjectRepositoryTrait};
use crate::models::forecast::{forecasts_view, month_commit, Forecast, ForecastView};
use crate::models::project::{opt_view, projects_view, Project, ProjectView};
use crate::services::project_service::{manager_name, ProjectService};
use crate::text::{insert_sorted_unique, str_eq, strictly_sorted, strings_view, trim, trim_spec};

verus! {

/// The end customer of the project stored for `id`, if any.
pub open spec fn customer_of(projects: Seq<ProjectView>, id: Seq<char>) -> Option<Seq<char>> {
    match lookup_project(projects, id) {
        Some(p) => Some(p.end_customer_name),
        None => None,
    }
}

/// The manager names of the forecasts of `entries`.
pub open spec fn forecast_manager_names(entries: Seq<ForecastView>) -> Set<Seq<char>>
    decreases entries.len(),
{
    if entries.len() == 0 {
        Set::empty()
    } else {
        forecast_manager_names(entries.drop_last()).insert(
            manager_name(entries.last().project_manager),
        )
    }
}

/// The forecasts of `entries` whose manager name is `name`, in order, each
/// with the end customer of its project.
pub open spec fn forecast_rows(
    entries: Seq<ForecastView>,
    projects: Seq<ProjectView>,
    name: Seq<char>,
) -> Seq<(ForecastView, Option<Seq<char>>)>
    decreases entries.len(),
{
    if entries.len() == 0 {
        Seq::empty()
    } else {
        let rest = forecast_rows(entries.drop_last(), projects, name);
        let f = entries.last();
        if manager_name(f.project_manager) == name {
            rest.push((f, customer_of(projects, f.project_id)))
        } else {
            rest
        }
    }
}

/// The forecasts of one project manager.
#[derive(Debug)]
pub struct ForecastByProjectManager {
    pub project_manager: String,
    /// Each forecast with the end customer name of its project, if stored.
    pub forecasts: Vec<(Forecast, Option<String>)>,
}

/// The rows of a group, as values.
pub open spec fn forecast_rows_view(rows: Seq<(Forecast, Option<String>)>) -> Seq<
    (ForecastView, Option<Seq<char>>),
> {
    rows.map_values(|row: (Forecast, Option<String>)| (row.0@, opt_view(row.1)))
}

/// The manager names of the groups, in order.
pub open spec fn forecast_group_names(groups: Seq<ForecastByProjectManager>) -> Seq<Seq<char>> {
    groups.map_values(|g: ForecastByProjectManager| g.project_manager@)
}

/// The name under which a project's revenue is summed: its trimmed account
/// executive when `by_account_executive`, else its trimmed sales org; none
/// when that is absent or blank.
pub open spec fn summary_key(by_account_executive: bool, p: ProjectView) -> Option<Seq<char>> {
    if by_account_executive {
        match p.account_executive {
            Some(ae) => if trim_spec(ae).len() > 0 {
                Some(trim_spec(ae))
            } else {
                None
            },
            None => None,
        }
    } else if trim_spec(p.sales_org).len() > 0 {
        Some(trim_spec(p.sales_org))
    } else {
        None
    }
}

/// The names under which some project of `entries` that has a forecast is
/// filed.
pub open spec fn summary_keys(
    by_account_executive: bool,
    entries: Seq<ProjectView>,
    forecasts: Seq<ForecastView>,
) -> Set<Seq<char>>
    decreases entries.len(),
{
    if entries.len() == 0 {
        Set::empty()
    } else {
        let rest = summary_keys(by_account_executive, entries.drop_last(), forecasts);
        let p = entries.last();
        match summary_key(by_account_executive, p) {
            Some(k) => if lookup_forecast(forecasts, p.project_id) is Some {
                rest.insert(k)
            } else {
                rest
            },
            None => rest,
        }
    }
}

/// The commit of month `month` of the forecast of `p` when `p` is filed
/// under `key` and has a forecast; 0 otherwise.
pub open spec fn summary_commit(
    by_account_executive: bool,
    p: ProjectView,
    forecasts: Seq<ForecastView>,
    key: Seq<char>,
    month: int,
) -> int {
    match lookup_forecast(forecasts, p.project_id) {
        Some(f) => if summary_key(by_account_executive, p) == Some(key) {
            month_commit(f, month)
        } else {
            0
        },
        None => 0,
    }
}

/// The total, in cents, of monthly commit `month` of the forecasts of the
/// projects of `entries` filed under `key`.
pub open spec fn summary_total(
    by_account_executive: bool,
    entries: Seq<ProjectView>,
    forecasts: Seq<ForecastView>,
    key: Seq<char>,
    month: int,
) -> int
    decreases entries.len(),
{
    if entries.len() == 0 {
        0
    } else {
        summary_total(by_account_executive, entries.drop_last(), forecasts, key, month)
            + summary_commit(by_account_executive, entries.last(), forecasts, key, month)
    }
}

/// The six monthly totals under `key` are `t`.
pub open spec fn summary_totals_are(
    by_account_executive: bool,
    entries: Seq<ProjectView>,
    forecasts: Seq<ForecastView>,
    key: Seq<char>,
    t: Seq<int>,
) -> bool {
    &&& t.len() == 6
    &&& forall|m: int|
        0 <= m < 6 ==> #[trigger] t[m] == summary_total(
            by_account_executive,
            entries,
            forecasts,
            key,
            m + 1,
        )
}

proof fn lemma_summary_total_bound(
    by_account_executive: bool,
    entries: Seq<ProjectView>,
    forecasts: Seq<ForecastView>,
    key: Seq<char>,
    month: int,
)
    ensures
        -(entries.len() * 0x8000_0000_0000_0000) <= summary_total(
            by_account_executive,
            entries,
            forecasts,
            key,
            month,
        ) <= entries.len() * 0x8000_0000_0000_0000,
    decreases entries.len(),
{
    if entries.len() > 0 {
        lemma_summary_total_bound(by_account_executive, entries.drop_last(), forecasts, key, month);
    }
}

/// The total, in cents, of monthly commit `month` over the forecasts of
/// `entries`.
pub open spec fn forecasts_month_total(entries: Seq<ForecastView>, month: int) -> int
    decreases entries.len(),
{
    if entries.len() == 0 {
        0
    } else {
        forecasts_month_total(entries.drop_last(), month) + month_commit(entries.last(), month)
    }
}

proof fn lemma_forecasts_month_total_bound(entries: Seq<ForecastView>, month: int)
    ensures
        -(entries.len() * 0x8000_0000_0000_0000) <= forecasts_month_total(entries, month)
            <= entries.len() * 0x8000_0000_0000_0000,
    decreases entries.len(),
{
    if entries.len() > 0 {
        lemma_forecasts_month_total_bound(entries.drop_last(), month);
    }
}

/// Six totals as integers.
pub open spec fn array_totals(t: [i128; 6]) -> Seq<int> {
    seq![t[0] as int, t[1] as int, t[2] as int, t[3] as int, t[4] as int, t[5] as int]
}

/// The revenue forecast of one account executive.
#[derive(Debug)]
pub struct RevenueSummaryByAccountExecutive {
    pub account_executive: String,
    /// The totals of the six monthly labor revenue commits, in cents.
    pub month1_total: i128,
    pub month2_total: i128,
    pub month3_total: i128,
    pub month4_total: i128,
    pub month5_total: i128,
    pub month6_total: i128,
}

/// The six monthly totals of a summary by account executive.
pub open spec fn account_executive_totals(s: RevenueSummaryByAccountExecutive) -> Seq<int> {
    seq![
        s.month1_total as int,
        s.month2_total as int,
        s.month3_total as int,
        s.month4_total as int,
        s.month5_total as int,
        s.month6_total as int,
    ]
}

/// The account executives of the summaries, in order.
pub open spec fn account_executive_names(s: Seq<RevenueSummaryByAccountExecutive>) -> Seq<
    Seq<char>,
> {
    s.map_values(|x: RevenueSummaryByAccountExecutive| x.account_executive@)
}

/// The revenue forecast of one sales organisation.
#[derive(Debug)]
pub struct RevenueSummaryBySalesOrg {
    pub sales_org: String,
    /// The totals of the six monthly labor revenue commits, in cents.
    pub month1_total: i128,
    pub month2_total: i128,
    pub month3_total: i128,
    pub month4_total: i128,
    pub month5_total: i128,
    pub month6_total: i128,
}

/// The six monthly totals of a summary by sales org.
pub open spec fn sales_org_totals(s: RevenueSummaryBySalesOrg) -> Seq<int> {
    seq![
        s.month1_total as int,
        s.month2_total as int,
        s.month3_total as int,
        s.month4_total as int,
        s.month5_total as int,
        s.month6_total as int,
    ]
}

/// The sales orgs of the summaries, in order.
pub open spec fn sales_org_names(s: Seq<RevenueSummaryBySalesOrg>) -> Seq<Seq<char>> {
    s.map_values(|x: RevenueSummaryBySalesOrg| x.sales_org@)
}

/// The names of the summaries, in order.
pub open spec fn summary_names(s: Seq<(String, [i128; 6])>) -> Seq<Seq<char>> {
    s.map_values(|x: (String, [i128; 6])| x.0@)
}

/// The name under which a project's revenue is summed.
fn summary_key_of(by_account_executive: bool, project: &Project) -> (r: Option<String>)
    ensures
        opt_view(r) == summary_key(by_account_executive, project@),
{
    if by_account_executive {
        match &project.account_executive {
            Some(ae) => {
                let t = trim(ae.as_str());
                if t.unicode_len() > 0 {
                    Some(t.to_owned())
                } else {
                    None
                }
            },
            None => None,
        }
    } else {
        let t = trim(project.sales_org.as_str());
        if t.unicode_len() > 0 {
            Some(t.to_owned())
        } else {
            None
        }
    }
}

/// Reads the forecasts of one repository.
pub struct ForecastService<'a> {
    repository: &'a InMemoryRepository,
}

impl<'a> ForecastService<'a> {
    /// A service over `repository`.
    pub fn new(repository: &'a InMemoryRepository) -> (r: Self)
        ensures
            r.repository() == repository,
    {
        ForecastService { repository }
    }

    /// The repository that the service reads.
    pub closed spec fn repository(&self) -> &'a InMemoryRepository {
        self.repository
    }

    /// The end customer of the project stored for `project_id`.
    fn customer_of(&self, project_id: &str) -> (r: Option<String>)
        ensures
            opt_view(r) == customer_of(self.repository().projects(), project_id@),
    {
        match ProjectRepositoryTrait::find_by_id(self.repository, project_id) {
            Some(p) => Some(p.end_customer_name),
            None => None,
        }
    }

    /// The forecasts grouped by manager name (the project manager field
    /// before any '{'), groups sorted by that name; in each group the
    /// forecasts keep their listing order and carry the end customer name
    /// of their project.
    pub fn get_forecasts_by_project_manager(&self) -> (r: Vec<ForecastByProjectManager>)
        ensures
            strictly_sorted(forecast_group_names(r@)),
            forecast_group_names(r@).to_set() == forecast_manager_names(
                self.repository().forecasts(),
            ),
            forall|i: int|
                0 <= i < r@.len() ==> forecast_rows_view(#[trigger] r@[i].forecasts@)
                    == forecast_rows(
                    self.repository().forecasts(),
                    self.repository().projects(),
                    r@[i].project_manager@,
                ),
    {
        let all = ForecastRepositoryTrait::find_all(self.repository);
        let ghost entries = self.repository.forecasts();
        let ghost projects = self.repository.projects();
        let mut names: Vec<String> = Vec::new();
        let mut i: usize = 0;
        assert(strings_view(names@).to_set() =~= Set::empty());
        while i < all.len()
            invariant
                i <= all@.len(),
                forecasts_view(all@) == entries,
                strictly_sorted(strings_view(names@)),
                strings_view(names@).to_set() == forecast_manager_names(entries.take(i as int)),
            decreases all@.len() - i,
        {
            let ghost prefix = entries.take(i + 1);
            assert(prefix.drop_last() == entries.take(i as int));
            assert(prefix.last() == all@[i as int]@);
            let name = ProjectService::extract_project_manager_name(
                all[i].project_manager.as_str(),
            );
            insert_sorted_unique(&mut names, name.to_owned());
            i = i + 1;
        }
        assert(entries.take(all@.len() as int) == entries);
        let mut r: Vec<ForecastByProjectManager> = Vec::new();
        let mut j: usize = 0;
        while j < names.len()
            invariant
                j <= names@.len(),
                forecasts_view(all@) == entries,
                entries == self.repository().forecasts(),
                projects == self.repository().projects(),
                forecast_group_names(r@) == strings_view(names@).take(j as int),
                forall|k: int|
                    0 <= k < r@.len() ==> forecast_rows_view(#[trigger] r@[k].forecasts@)
                        == forecast_rows(entries, projects, r@[k].project_manager@),
            decreases names@.len() - j,
        {
            let name = names[j].as_str();
            let mut rows: Vec<(Forecast, Option<String>)> = Vec::new();
            let mut i: usize = 0;
            while i < all.len()
                invariant
                    i <= all@.len(),
                    forecasts_view(all@) == entries,
                    projects == self.repository().projects(),
                    forecast_rows_view(rows@) == forecast_rows(
                        entries.take(i as int),
                        projects,
                        name@,
                    ),
                decreases all@.len() - i,
            {
                let ghost prefix = entries.take(i + 1);
                assert(prefix.drop_last() == entries.take(i as int));
                assert(prefix.last() == all@[i as int]@);
                let forecast = &all[i];
                let pm = ProjectService::extract_project_manager_name(
                    forecast.project_manager.as_str(),
                );
                if crate::text::str_eq(pm, name) {
                    let customer = self.customer_of(forecast.project_id.as_str());
                    rows.push((forecast.clone(), customer));
                    assert(forecast_rows_view(rows@) =~= forecast_rows(
                        entries.take(i as int),
                        projects,
                        name@,
                    ).push((forecast@, customer_of(projects, forecast@.project_id))));
                }
                i = i + 1;
            }
            assert(entries.take(all@.len() as int) == entries);
            let ghost old_r = r@;
            r.push(ForecastByProjectManager { project_manager: names[j].clone(), forecasts: rows });
            assert(strings_view(names@).take(j + 1) == strings_view(names@).take(j as int).push(
                names@[j as int]@,
            ));
            assert(forecast_group_names(r@) =~= forecast_group_names(old_r).push(names@[j as int]@));
            j = j + 1;
        }
        assert(strings_view(names@).take(names@.len() as int) == strings_view(names@));
        r
    }

    /// The names under which the projects that have a forecast are filed
    /// (see `summary_key`), sorted, each with the six monthly totals of
    /// those projects' forecasts.
    fn revenue_summaries(&self, by_account_executive: bool) -> (r: Vec<(String, [i128; 6])>)
        ensures
            strictly_sorted(summary_names(r@)),
            summary_names(r@).to_set() == summary_keys(
                by_account_executive,
                self.repository().projects(),
                self.repository().forecasts(),
            ),
            forall|i: int|
                0 <= i < r@.len() ==> summary_totals_are(
                    by_account_executive,
                    self.repository().projects(),
                    self.repository().forecasts(),
                    (#[trigger] r@[i]).0@,
                    array_totals(r@[i].1),
                ),
    {
        let by = by_account_executive;
        let all = ProjectRepositoryTrait::find_all(self.repository);
        let ghost entries = self.repository.projects();
        let ghost forecasts = self.repository.forecasts();
        let mut names: Vec<String> = Vec::new();
        let mut i: usize = 0;
        assert(strings_view(names@).to_set() =~= Set::empty());
        while i < all.len()
            invariant
                i <= all@.len(),
                projects_view(all@) == entries,
                forecasts == self.repository.forecasts(),
                strictly_sorted(strings_view(names@)),
                strings_view(names@).to_set() == summary_keys(by, entries.take(i as int), forecasts),
            decreases all@.len() - i,
        {
            let ghost prefix = entries.take(i + 1);
            assert(prefix.drop_last() == entries.take(i as int));
            assert(prefix.last() == all@[i as int]@);
            match summary_key_of(by, &all[i]) {
                Some(k) => {
                    if ForecastRepositoryTrait::find_by_id(
                        self.repository,
                        all[i].project_id.as_str(),
                    ).is_some() {
                        insert_sorted_unique(&mut names, k);
                    }
                },
                None => {},
            }
            i = i + 1;
        }
        assert(entries.take(all@.len() as int) == entries);
        let mut r: Vec<(String, [i128; 6])> = Vec::new();
        let mut j: usize = 0;
        while j < names.len()
            invariant
                j <= names@.len(),
                projects_view(all@) == entries,
                entries == self.repository().projects(),
                forecasts == self.repository().forecasts(),
                summary_names(r@) == strings_view(names@).take(j as int),
                forall|k: int|
                    0 <= k < r@.len() ==> summary_totals_are(
                        by,
                        entries,
                        forecasts,
                        (#[trigger] r@[k]).0@,
                        array_totals(r@[k].1),
                    ),
            decreases names@.len() - j,
        {
            let name = names[j].as_str();
            let totals = self.totals_under(&all, by, name);
            let ghost old_r = r@;
            r.push((names[j].clone(), totals));
            assert(strings_view(names@).take(j + 1) == strings_view(names@).take(j as int).push(
                names@[j as int]@,
            ));
            assert(summary_names(r@) =~= summary_names(old_r).push(names@[j as int]@));
            j = j + 1;
        }
        assert(strings_view(names@).take(names@.len() as int) == strings_view(names@));
        r
    }

    /// The six monthly totals of the forecasts of the projects `all` (the
    /// stored projects) filed under `name`.
    fn totals_under(&self, all: &Vec<Project>, by_account_executive: bool, name: &str) -> (r: [i128; 6])
        requires
            projects_view(all@) == self.repository().projects(),
        ensures
            summary_totals_are(
                by_account_executive,
                self.repository().projects(),
                self.repository().forecasts(),
                name@,
                array_totals(r),
            ),
    {
        let by = by_account_executive;
        let ghost entries = self.repository.projects();
        let ghost forecasts = self.repository.forecasts();
        let mut totals: [i128; 6] = [0, 0, 0, 0, 0, 0];
        let mut i: usize = 0;
        while i < all.len()
            invariant
                i <= all@.len(),
                projects_view(all@) == entries,
                forecasts == self.repository().forecasts(),
                forall|m: int|
                    0 <= m < 6 ==> totals[m] as int == summary_total(
                        by,
                        entries.take(i as int),
                        forecasts,
                        name@,
                        m + 1,
                    ),
            decreases all@.len() - i,
        {
            let ghost prefix = entries.take(i + 1);
            assert(prefix.drop_last() == entries.take(i as int));
            assert(prefix.last() == all@[i as int]@);
            assert((i as int + 1) * 0x8000_0000_0000_0000 <= 0x7FFF_FFFF_FFFF_FFFF_FFFF_FFFF_FFFF_FFFF)
                by (nonlinear_arith)
                requires
                    i < usize::MAX,
                    usize::MAX <= 0xFFFF_FFFF_FFFF_FFFF,
            ;
            let mut filed = false;
            match summary_key_of(by, &all[i]) {
                Some(k) => {
                    filed = str_eq(k.as_str(), name);
                },
                None => {},
            }
            if filed {
                match ForecastRepositoryTrait::find_by_id(
                    self.repository,
                    all[i].project_id.as_str(),
                ) {
                    Some(f) => {
                        let ghost before = totals;
                        let mut m: usize = 0;
                        while m < 6
                            invariant
                                m <= 6,
                                i < all@.len() < usize::MAX + 1,
                                projects_view(all@) == entries,
                                lookup_forecast(forecasts, all@[i as int]@.project_id) == Some(
                                    f@,
                                ),
                                summary_key(by, all@[i as int]@) == Some(name@),
                                forall|k: int|
                                    0 <= k < 6 ==> before[k] as int == summary_total(
                                        by,
                                        entries.take(i as int),
                                        forecasts,
                                        name@,
                                        k + 1,
                                    ),
                                forall|k: int|
                                    0 <= k < m ==> totals[k] as int == before[k] + month_commit(
                                        f@,
                                        k + 1,
                                    ),
                                forall|k: int| m <= k < 6 ==> totals[k] == before[k],
                                (i as int + 1) * 0x8000_0000_0000_0000
                                    <= 0x7FFF_FFFF_FFFF_FFFF_FFFF_FFFF_FFFF_FFFF,
                            decreases 6 - m,
                        {
                            proof {
                                lemma_summary_total_bound(
                                    by,
                                    entries.take(i as int),
                                    forecasts,
                                    name@,
                                    m + 1,
                                );
                            }
                            totals[m] = totals[m] + f.commit_of_month(m) as i128;
                            m = m + 1;
                        }
                    },
                    None => {},
                }
            }
            i = i + 1;
        }
        assert(entries.take(all@.len() as int) == entries);
        proof {
            let t = array_totals(totals);
            assert forall|m: int| 0 <= m < 6 implies #[trigger] t[m] == summary_total(
                by,
                entries,
                forecasts,
                name@,
                m + 1,
            ) by {
                assert(t[m] == totals[m] as int);
            }
        }
        totals
    }

    /// The revenue forecast of each account executive: for every trimmed,
    /// non-blank account executive of a project that has a forecast, the
    /// six monthly totals of those projects' forecasts; sorted by name.
    pub fn get_revenue_summary_by_account_executive(&self) -> (r: Vec<
        RevenueSummaryByAccountExecutive,
    >)
        ensures
            strictly_sorted(account_executive_names(r@)),
            account_executive_names(r@).to_set() == summary_keys(
                true,
                self.repository().projects(),
                self.repository().forecasts(),
            ),
            forall|i: int|
                0 <= i < r@.len() ==> summary_totals_are(
                    true,
                    self.repository().projects(),
                    self.repository().forecasts(),
                    (#[trigger] r@[i]).account_executive@,
                    account_executive_totals(r@[i]),
                ),
    {
        let rows = self.revenue_summaries(true);
        let mut r: Vec<RevenueSummaryByAccountExecutive> = Vec::new();
        let mut i: usize = 0;
        while i < rows.len()
            invariant
                i <= rows@.len(),
                r@.len() == i,
                account_executive_names(r@) == summary_names(rows@).take(i as int),
                forall|k: int|
                    0 <= k < r@.len() ==> account_executive_totals(#[trigger] r@[k])
                        == array_totals(rows@[k].1) && r@[k].account_executive@ == rows@[k].0@,
            decreases rows@.len() - i,
        {
            let t = rows[i].1;
            let ghost old_r = r@;
            r.push(
                RevenueSummaryByAccountExecutive {
                    account_executive: rows[i].0.clone(),
                    month1_total: t[0],
                    month2_total: t[1],
                    month3_total: t[2],
                    month4_total: t[3],
                    month5_total: t[4],
                    month6_total: t[5],
                },
            );
            assert(account_executive_totals(r@[i as int]) =~= array_totals(rows@[i as int].1));
            assert(summary_names(rows@).take(i + 1) == summary_names(rows@).take(i as int).push(
                rows@[i as int].0@,
            ));
            assert(account_executive_names(r@) =~= account_executive_names(old_r).push(
                rows@[i as int].0@,
            ));
            i = i + 1;
        }
        assert(summary_names(rows@).take(rows@.len() as int) == summary_names(rows@));
        r
    }

    /// The revenue forecast of each sales org: for every trimmed, non-blank
    /// sales org of a project that has a forecast, the six monthly totals of
    /// those projects' forecasts; sorted by name.
    pub fn get_revenue_summary_by_sales_org(&self) -> (r: Vec<RevenueSummaryBySalesOrg>)
        ensures
            strictly_sorted(sales_org_names(r@)),
            sales_org_names(r@).to_set() == summary_keys(
                false,
                self.repository().projects(),
                self.repository().forecasts(),
            ),
            forall|i: int|
                0 <= i < r@.len() ==> summary_totals_are(
                    false,
                    self.repository().projects(),
                    self.repository().forecasts(),
                    (#[trigger] r@[i]).sales_org@,
                    sales_org_totals(r@[i]),
                ),
    {
        let rows = self.revenue_summaries(false);
        let mut r: Vec<RevenueSummaryBySalesOrg> = Vec::new();
        let mut i: usize = 0;
        while i < rows.len()
            invariant
                i <= rows@.len(),
                r@.len() == i,
                sales_org_names(r@) == summary_names(rows@).take(i as int),
                forall|k: int|
                    0 <= k < r@.len() ==> sales_org_totals(#[trigger] r@[k]) == array_totals(
                        rows@[k].1,
                    ) && r@[k].sales_org@ == rows@[k].0@,
            decreases rows@.len() - i,
        {
            let t = rows[i].1;
            let ghost old_r = r@;
            r.push(
                RevenueSummaryBySalesOrg {
                    sales_org: rows[i].0.clone(),
                    month1_total: t[0],
                    month2_total: t[1],
                    month3_total: t[2],
                    month4_total: t[3],
                    month5_total: t[4],
                    month6_total: t[5],
                },
            );
            assert(sales_org_totals(r@[i as int]) =~= array_totals(rows@[i as int].1));
            assert(summary_names(rows@).take(i + 1) == summary_names(rows@).take(i as int).push(
                rows@[i as int].0@,
            ));
            assert(sales_org_names(r@) =~= sales_org_names(old_r).push(rows@[i as int].0@));
            i = i + 1;
        }
        assert(summary_names(rows@).take(rows@.len() as int) == summary_names(rows@));
        r
    }

    /// The six monthly totals, in cents, over all stored forecasts.
    pub fn get_total_revenue_forecast(&self) -> (r: (i128, i128, i128, i128, i128, i128))
        ensures
            r.0 == forecasts_month_total(self.repository().forecasts(), 1),
            r.1 == forecasts_month_total(self.repository().forecasts(), 2),
            r.2 == forecasts_month_total(self.repository().forecasts(), 3),
            r.3 == forecasts_month_total(self.repository().forecasts(), 4),
            r.4 == forecasts_month_total(self.repository().forecasts(), 5),
            r.5 == forecasts_month_total(self.repository().forecasts(), 6),
    {
        let all = ForecastRepositoryTrait::find_all(self.repository);
        let ghost entries = self.repository.forecasts();
        let mut totals: [i128; 6] = [0, 0, 0, 0, 0, 0];
        let mut i: usize = 0;
        while i < all.len()
            invariant
                i <= all@.len(),
                forecasts_view(all@) == entries,
                forall|m: int|
                    0 <= m < 6 ==> totals[m] as int == forecasts_month_total(
                        entries.take(i as int),
                        m + 1,
                    ),
            decreases all@.len() - i,
        {
            let ghost prefix = entries.take(i + 1);
            assert(prefix.drop_last() == entries.take(i as int));
            assert(prefix.last() == all@[i as int]@);
            assert((i as int + 1) * 0x8000_0000_0000_0000 <= 0x7FFF_FFFF_FFFF_FFFF_FFFF_FFFF_FFFF_FFFF)
                by (nonlinear_arith)
                requires
                    i < usize::MAX,
                    usize::MAX <= 0xFFFF_FFFF_FFFF_FFFF,
            ;
            let ghost before = totals;
            let mut m: usize = 0;
            while m < 6
                invariant
                    m <= 6,
                    i < all@.len(),
                    forecasts_view(all@) == entries,
                    forall|k: int|
                        0 <= k < 6 ==> before[k] as int == forecasts_month_total(
                            entries.take(i as int),
                            k + 1,
                        ),
                    forall|k: int|
                        0 <= k < m ==> totals[k] as int == before[k] + month_commit(
                            all@[i as int]@,
                            k + 1,
                        ),
                    forall|k: int| m <= k < 6 ==> totals[k] == before[k],
                    (i as int + 1) * 0x8000_0000_0000_0000
                        <= 0x7FFF_FFFF_FFFF_FFFF_FFFF_FFFF_FFFF_FFFF,
                decreases 6 - m,
            {
                proof {
                    lemma_forecasts_month_total_bound(entries.take(i as int), m + 1);
                }
                totals[m] = totals[m] + all[i].commit_of_month(m) as i128;
                m = m + 1;
            }
            i = i + 1;
        }
        assert(entries.take(all@.len() as int) == entries);
        (totals[0], totals[1], totals[2], totals[3], totals[4], totals[5])
    }
}

} // verus!
