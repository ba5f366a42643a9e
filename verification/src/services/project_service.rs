//! Reports on projects: missing forecasts, holds, account executives, and
//! grouping by project manager.
use vstd::prelude::*;
use crate::db::repositories::forecast_repository::{lookup_forecast, ForecastRepositoryTrait};
use crate::db::repositories::in_memory_repository::InMemoryRepository;
use crate::db::repositories::project_repository::ProjectRepositoryTrait;
use crate::models::forecast::{six_month_total, ForecastView};
use crate::models::project::{projects_view, Project, ProjectView};
use crate::text::{
    chars_of, collapse_white_space, collapse_white_space_chars, find_char, find_char_in,
    insert_sorted_unique, is_blank, lemma_find_char, strictly_sorted, string_from_chars,
    strings_view, trim, trim_spec,
};

verus! {

/// The name part of a project manager field "Last, First{account_id}": the
/// text before the first '{', or all of it when there is none.
pub open spec fn manager_name(s: Seq<char>) -> Seq<char> {
    match find_char(s, '{') {
        Some(k) => s.take(k),
        None => s,
    }
}

/// The comment with line breaks turned into spaces and white space
/// collapsed to single spaces between words.
pub open spec fn sanitized_comment(s: Seq<char>) -> Seq<char> {
    collapse_white_space(without_line_breaks(s))
}

/// `s` with each '\n' and '\r' replaced by a space.
pub open spec fn without_line_breaks(s: Seq<char>) -> Seq<char> {
    s.map_values(|c: char| if c == '\n' || c == '\r' { ' ' } else { c })
}

/// A project has no usable forecast: none is stored for its id, or the six
/// monthly commits of the stored one sum to zero.
pub open spec fn lacks_forecast(forecasts: Seq<ForecastView>, p: ProjectView) -> bool {
    match lookup_forecast(forecasts, p.project_id) {
        None => true,
        Some(f) => six_month_total(f) == 0,
    }
}

/// The projects of `entries` that lack a forecast, in order.
pub open spec fn projects_lacking_forecast(
    entries: Seq<ProjectView>,
    forecasts: Seq<ForecastView>,
) -> Seq<ProjectView>
    decreases entries.len(),
{
    if entries.len() == 0 {
        Seq::empty()
    } else {
        let rest = projects_lacking_forecast(entries.drop_last(), forecasts);
        if lacks_forecast(forecasts, entries.last()) {
            rest.push(entries.last())
        } else {
            rest
        }
    }
}

/// The projects of `entries` that are on hold, in order.
pub open spec fn projects_on_hold(entries: Seq<ProjectView>) -> Seq<ProjectView>
    decreases entries.len(),
{
    if entries.len() == 0 {
        Seq::empty()
    } else {
        let rest = projects_on_hold(entries.drop_last());
        if entries.last().on_hold {
            rest.push(entries.last())
        } else {
            rest
        }
    }
}

/// A project names no account executive: the field is absent or blank.
pub open spec fn lacks_account_executive(p: ProjectView) -> bool {
    match p.account_executive {
        None => true,
        Some(ae) => trim_spec(ae).len() == 0,
    }
}

/// The projects of `entries` without an account executive, in order.
pub open spec fn projects_lacking_account_executive(entries: Seq<ProjectView>) -> Seq<ProjectView>
    decreases entries.len(),
{
    if entries.len() == 0 {
        Seq::empty()
    } else {
        let rest = projects_lacking_account_executive(entries.drop_last());
        if lacks_account_executive(entries.last()) {
            rest.push(entries.last())
        } else {
            rest
        }
    }
}

/// The trimmed account executive names of `entries`, blank ones left out.
pub open spec fn account_executive_names(entries: Seq<ProjectView>) -> Set<Seq<char>>
    decreases entries.len(),
{
    if entries.len() == 0 {
        Set::empty()
    } else {
        let rest = account_executive_names(entries.drop_last());
        match entries.last().account_executive {
            Some(ae) => if trim_spec(ae).len() > 0 {
                rest.insert(trim_spec(ae))
            } else {
                rest
            },
            None => rest,
        }
    }
}

/// Contract total and remaining value (cents), currency and class of a
/// forecast.
pub open spec fn contract_view(c: Option<(i64, i64, String, String)>) -> Option<
    (i64, i64, Seq<char>, Seq<char>),
> {
    match c {
        Some(t) => Some((t.0, t.1, t.2@, t.3@)),
        None => None,
    }
}

/// The contract values of the forecast stored for `id`, if any.
pub open spec fn contract_values(forecasts: Seq<ForecastView>, id: Seq<char>) -> Option<
    (i64, i64, Seq<char>, Seq<char>),
> {
    match lookup_forecast(forecasts, id) {
        Some(f) => Some((f.contract_total_value, f.contract_remaining_value, f.currency, f.class)),
        None => None,
    }
}

/// The manager names of the projects of `entries`.
pub open spec fn manager_names(entries: Seq<ProjectView>) -> Set<Seq<char>>
    decreases entries.len(),
{
    if entries.len() == 0 {
        Set::empty()
    } else {
        manager_names(entries.drop_last()).insert(manager_name(entries.last().project_manager))
    }
}

/// The projects of `entries` whose manager name is `name`, in order, each
/// with the contract values of its forecast.
pub open spec fn manager_rows(
    entries: Seq<ProjectView>,
    forecasts: Seq<ForecastView>,
    name: Seq<char>,
) -> Seq<(ProjectView, Option<(i64, i64, Seq<char>, Seq<char>)>)>
    decreases entries.len(),
{
    if entries.len() == 0 {
        Seq::empty()
    } else {
        let rest = manager_rows(entries.drop_last(), forecasts, name);
        let p = entries.last();
        if manager_name(p.project_manager) == name {
            rest.push((p, contract_values(forecasts, p.project_id)))
        } else {
            rest
        }
    }
}

/// The projects of one project manager.
#[derive(Debug)]
pub struct ProjectByProjectManager {
    pub project_manager: String,
    /// Each project with contract total value, remaining value (cents),
    /// currency and class from its forecast, when it has one.
    pub projects: Vec<(Project, Option<(i64, i64, String, String)>)>,
}

/// The rows of a group, as values.
pub open spec fn manager_rows_view(rows: Seq<(Project, Option<(i64, i64, String, String)>)>) -> Seq<
    (ProjectView, Option<(i64, i64, Seq<char>, Seq<char>)>),
> {
    rows.map_values(
        |row: (Project, Option<(i64, i64, String, String)>)| (row.0@, contract_view(row.1)),
    )
}

/// The manager names of the groups, in order.
pub open spec fn group_names(groups: Seq<ProjectByProjectManager>) -> Seq<Seq<char>> {
    groups.map_values(|g: ProjectByProjectManager| g.project_manager@)
}

/// The on-hold projects of one account executive.
pub open spec fn account_executive_group_names(groups: Seq<(String, Vec<Project>)>) -> Seq<
    Seq<char>,
> {
    groups.map_values(|g: (String, Vec<Project>)| g.0@)
}

/// The name under which an on-hold project is filed: its trimmed account
/// executive, or "No Account Executive" when that is absent or blank.
pub open spec fn hold_group_key(p: ProjectView) -> Seq<char> {
    match p.account_executive {
        Some(ae) => if trim_spec(ae).len() > 0 {
            trim_spec(ae)
        } else {
            no_account_executive()
        },
        None => no_account_executive(),
    }
}

/// The text "No Account Executive".
pub open spec fn no_account_executive() -> Seq<char> {
    seq!['N', 'o', ' ', 'A', 'c', 'c', 'o', 'u', 'n', 't', ' ', 'E', 'x', 'e', 'c', 'u', 't', 'i', 'v', 'e']
}

/// The keys under which the on-hold projects of `entries` are filed.
pub open spec fn hold_group_keys(entries: Seq<ProjectView>) -> Set<Seq<char>>
    decreases entries.len(),
{
    if entries.len() == 0 {
        Set::empty()
    } else {
        let rest = hold_group_keys(entries.drop_last());
        if entries.last().on_hold {
            rest.insert(hold_group_key(entries.last()))
        } else {
            rest
        }
    }
}

/// The on-hold projects of `entries` filed under `key`, in order.
pub open spec fn hold_group(entries: Seq<ProjectView>, key: Seq<char>) -> Seq<ProjectView>
    decreases entries.len(),
{
    if entries.len() == 0 {
        Seq::empty()
    } else {
        let rest = hold_group(entries.drop_last(), key);
        let p = entries.last();
        if p.on_hold && hold_group_key(p) == key {
            rest.push(p)
        } else {
            rest
        }
    }
}

/// Reads projects and forecasts of one repository.
pub struct ProjectService<'a> {
    repository: &'a InMemoryRepository,
}

impl<'a> ProjectService<'a> {
    /// A service over `repository`.
    pub fn new(repository: &'a InMemoryRepository) -> (r: Self)
        ensures
            r.repository() == repository,
    {
        ProjectService { repository }
    }

    /// The repository that the service reads.
    pub closed spec fn repository(&self) -> &'a InMemoryRepository {
        self.repository
    }

    /// The projects without a forecast, or whose forecast's six monthly
    /// commits sum to zero, in listing order.
    pub fn find_projects_without_forecasts(&self) -> (r: Vec<Project>)
        ensures
            projects_view(r@) == projects_lacking_forecast(
                self.repository().projects(),
                self.repository().forecasts(),
            ),
    {
        let all = ProjectRepositoryTrait::find_all(self.repository);
        let ghost entries = self.repository.projects();
        let ghost forecasts = self.repository.forecasts();
        let mut r: Vec<Project> = Vec::new();
        let mut i: usize = 0;
        while i < all.len()
            invariant
                i <= all@.len(),
                projects_view(all@) == entries,
                entries == self.repository.projects(),
                forecasts == self.repository.forecasts(),
                projects_view(r@) == projects_lacking_forecast(entries.take(i as int), forecasts),
            decreases all@.len() - i,
        {
            let ghost prefix = entries.take(i + 1);
            assert(prefix.drop_last() == entries.take(i as int));
            assert(prefix.last() == all@[i as int]@);
            let project = &all[i];
            let lacking = match ForecastRepositoryTrait::find_by_id(
                self.repository,
                project.project_id.as_str(),
            ) {
                None => true,
                Some(forecast) => forecast.has_zero_total(),
            };
            if lacking {
                r.push(project.clone());
                assert(projects_view(r@) =~= projects_lacking_forecast(
                    entries.take(i as int),
                    forecasts,
                ).push(project@));
            }
            i = i + 1;
        }
        assert(entries.take(all@.len() as int) == entries);
        r
    }

    /// The projects on hold, in listing order.
    pub fn find_on_hold_projects(&self) -> (r: Vec<Project>)
        ensures
            projects_view(r@) == projects_on_hold(self.repository().projects()),
    {
        let all = ProjectRepositoryTrait::find_all(self.repository);
        let ghost entries = self.repository.projects();
        let mut r: Vec<Project> = Vec::new();
        let mut i: usize = 0;
        while i < all.len()
            invariant
                i <= all@.len(),
                projects_view(all@) == entries,
                projects_view(r@) == projects_on_hold(entries.take(i as int)),
            decreases all@.len() - i,
        {
            let ghost prefix = entries.take(i + 1);
            assert(prefix.drop_last() == entries.take(i as int));
            assert(prefix.last() == all@[i as int]@);
            if all[i].on_hold {
                r.push(all[i].clone());
                assert(projects_view(r@) =~= projects_on_hold(entries.take(i as int)).push(
                    all@[i as int]@,
                ));
            }
            i = i + 1;
        }
        assert(entries.take(all@.len() as int) == entries);
        r
    }

    /// The projects whose account executive ("Other Stakeholder") is absent
    /// or blank, in listing order.
    pub fn find_projects_without_account_executive(&self) -> (r: Vec<Project>)
        ensures
            projects_view(r@) == projects_lacking_account_executive(self.repository().projects()),
    {
        let all = ProjectRepositoryTrait::find_all(self.repository);
        let ghost entries = self.repository.projects();
        let mut r: Vec<Project> = Vec::new();
        let mut i: usize = 0;
        while i < all.len()
            invariant
                i <= all@.len(),
                projects_view(all@) == entries,
                projects_view(r@) == projects_lacking_account_executive(entries.take(i as int)),
            decreases all@.len() - i,
        {
            let ghost prefix = entries.take(i + 1);
            assert(prefix.drop_last() == entries.take(i as int));
            assert(prefix.last() == all@[i as int]@);
            let missing = match &all[i].account_executive {
                None => true,
                Some(ae) => is_blank(ae.as_str()),
            };
            if missing {
                r.push(all[i].clone());
                assert(projects_view(r@) =~= projects_lacking_account_executive(
                    entries.take(i as int),
                ).push(all@[i as int]@));
            }
            i = i + 1;
        }
        assert(entries.take(all@.len() as int) == entries);
        r
    }

    /// The distinct trimmed, non-blank account executive names, sorted.
    pub fn find_all_account_executives(&self) -> (r: Vec<String>)
        ensures
            strictly_sorted(strings_view(r@)),
            strings_view(r@).to_set() == account_executive_names(self.repository().projects()),
    {
        let all = ProjectRepositoryTrait::find_all(self.repository);
        let ghost entries = self.repository.projects();
        let mut r: Vec<String> = Vec::new();
        let mut i: usize = 0;
        assert(strings_view(r@).to_set() =~= Set::empty());
        while i < all.len()
            invariant
                i <= all@.len(),
                projects_view(all@) == entries,
                strictly_sorted(strings_view(r@)),
                strings_view(r@).to_set() == account_executive_names(entries.take(i as int)),
            decreases all@.len() - i,
        {
            let ghost prefix = entries.take(i + 1);
            assert(prefix.drop_last() == entries.take(i as int));
            assert(prefix.last() == all@[i as int]@);
            match &all[i].account_executive {
                Some(ae) => {
                    let trimmed = trim(ae.as_str());
                    if trimmed.unicode_len() > 0 {
                        insert_sorted_unique(&mut r, trimmed.to_owned());
                    }
                },
                None => {},
            }
            i = i + 1;
        }
        assert(entries.take(all@.len() as int) == entries);
        r
    }

    /// The name part of a project manager field: the text before the first
    /// '{', or the whole field.
    pub fn extract_project_manager_name(project_manager: &str) -> (r: &str)
        ensures
            r@ == manager_name(project_manager@),
    {
        let v = chars_of(project_manager);
        proof {
            lemma_find_char(project_manager@, '{');
        }
        match find_char_in(&v, '{') {
            Some(k) => project_manager.substring_char(0, k),
            None => project_manager,
        }
    }

    /// The comment with line breaks replaced by spaces and runs of white
    /// space collapsed to one space, without leading or trailing space.
    pub fn sanitize_on_hold_comment(comment: &str) -> (r: String)
        ensures
            r@ == sanitized_comment(comment@),
    {
        let v = chars_of(comment);
        let mut replaced: Vec<char> = Vec::new();
        let mut i: usize = 0;
        while i < v.len()
            invariant
                i <= v@.len(),
                v@ == comment@,
                replaced@ == without_line_breaks(v@.take(i as int)),
            decreases v@.len() - i,
        {
            let c = v[i];
            if c == '\n' || c == '\r' {
                replaced.push(' ');
            } else {
                replaced.push(c);
            }
            assert(replaced@ =~= without_line_breaks(v@.take(i + 1)));
            i = i + 1;
        }
        assert(v@.take(v@.len() as int) == v@);
        let collapsed = collapse_white_space_chars(&replaced);
        string_from_chars(&collapsed)
    }
    /// The contract values of the forecast stored for `project_id`.
    fn contract_of(&self, project_id: &str) -> (r: Option<(i64, i64, String, String)>)
        ensures
            contract_view(r) == contract_values(self.repository().forecasts(), project_id@),
    {
        match ForecastRepositoryTrait::find_by_id(self.repository, project_id) {
            Some(f) => Some(
                (f.contract_total_value, f.contract_remaining_value, f.currency, f.class),
            ),
            None => None,
        }
    }

    /// The projects grouped by manager name, groups sorted by that name; in
    /// each group the projects keep their listing order and carry the
    /// contract values of their forecast.
    pub fn get_projects_by_project_manager(&self) -> (r: Vec<ProjectByProjectManager>)
        ensures
            strictly_sorted(group_names(r@)),
            group_names(r@).to_set() == manager_names(self.repository().projects()),
            forall|i: int|
                0 <= i < r@.len() ==> manager_rows_view(#[trigger] r@[i].projects@)
                    == manager_rows(
                    self.repository().projects(),
                    self.repository().forecasts(),
                    r@[i].project_manager@,
                ),
    {
        let all = ProjectRepositoryTrait::find_all(self.repository);
        let ghost entries = self.repository.projects();
        let ghost forecasts = self.repository.forecasts();
        let mut names: Vec<String> = Vec::new();
        let mut i: usize = 0;
        assert(strings_view(names@).to_set() =~= Set::empty());
        while i < all.len()
            invariant
                i <= all@.len(),
                projects_view(all@) == entries,
                strictly_sorted(strings_view(names@)),
                strings_view(names@).to_set() == manager_names(entries.take(i as int)),
            decreases all@.len() - i,
        {
            let ghost prefix = entries.take(i + 1);
            assert(prefix.drop_last() == entries.take(i as int));
            assert(prefix.last() == all@[i as int]@);
            let name = Self::extract_project_manager_name(all[i].project_manager.as_str());
            insert_sorted_unique(&mut names, name.to_owned());
            i = i + 1;
        }
        assert(entries.take(all@.len() as int) == entries);
        let mut r: Vec<ProjectByProjectManager> = Vec::new();
        let mut j: usize = 0;
        while j < names.len()
            invariant
                j <= names@.len(),
                projects_view(all@) == entries,
                entries == self.repository().projects(),
                forecasts == self.repository().forecasts(),
                group_names(r@) == strings_view(names@).take(j as int),
                forall|k: int|
                    0 <= k < r@.len() ==> manager_rows_view(#[trigger] r@[k].projects@)
                        == manager_rows(entries, forecasts, r@[k].project_manager@),
            decreases names@.len() - j,
        {
            let name = names[j].as_str();
            let mut rows: Vec<(Project, Option<(i64, i64, String, String)>)> = Vec::new();
            let mut i: usize = 0;
            while i < all.len()
                invariant
                    i <= all@.len(),
                    projects_view(all@) == entries,
                    forecasts == self.repository().forecasts(),
                    manager_rows_view(rows@) == manager_rows(entries.take(i as int), forecasts, name@),
                decreases all@.len() - i,
            {
                let ghost prefix = entries.take(i + 1);
                assert(prefix.drop_last() == entries.take(i as int));
                assert(prefix.last() == all@[i as int]@);
                let project = &all[i];
                let pm = Self::extract_project_manager_name(project.project_manager.as_str());
                if crate::text::str_eq(pm, name) {
                    let contract = self.contract_of(project.project_id.as_str());
                    rows.push((project.clone(), contract));
                    assert(manager_rows_view(rows@) =~= manager_rows(
                        entries.take(i as int),
                        forecasts,
                        name@,
                    ).push((project@, contract_values(forecasts, project@.project_id))));
                }
                i = i + 1;
            }
            assert(entries.take(all@.len() as int) == entries);
            let ghost old_r = r@;
            r.push(ProjectByProjectManager { project_manager: names[j].clone(), projects: rows });
            assert(strings_view(names@).take(j + 1) == strings_view(names@).take(j as int).push(
                names@[j as int]@,
            ));
            assert(group_names(r@) =~= group_names(old_r).push(names@[j as int]@));
            j = j + 1;
        }
        assert(strings_view(names@).take(names@.len() as int) == strings_view(names@));
        r
    }

    /// The on-hold projects filed by trimmed account executive name, or
    /// under "No Account Executive" when that is absent or blank; the
    /// groups are sorted by name and each keeps the listing order.
    pub fn get_on_hold_projects_by_account_executive(&self) -> (r: Vec<(String, Vec<Project>)>)
        ensures
            strictly_sorted(account_executive_group_names(r@)),
            account_executive_group_names(r@).to_set() == hold_group_keys(
                self.repository().projects(),
            ),
            forall|i: int|
                0 <= i < r@.len() ==> projects_view(#[trigger] r@[i].1@) == hold_group(
                    self.repository().projects(),
                    r@[i].0@,
                ),
    {
        let all = ProjectRepositoryTrait::find_all(self.repository);
        let ghost entries = self.repository.projects();
        let mut keys: Vec<String> = Vec::new();
        let mut keyed: Vec<String> = Vec::new();
        let mut i: usize = 0;
        assert(strings_view(keys@).to_set() =~= Set::empty());
        while i < all.len()
            invariant
                i <= all@.len(),
                projects_view(all@) == entries,
                keyed@.len() == i,
                forall|k: int| 0 <= k < i ==> (#[trigger] keyed@[k])@ == hold_group_key(entries[k]),
                strictly_sorted(strings_view(keys@)),
                strings_view(keys@).to_set() == hold_group_keys(entries.take(i as int)),
            decreases all@.len() - i,
        {
            let ghost prefix = entries.take(i + 1);
            assert(prefix.drop_last() == entries.take(i as int));
            assert(prefix.last() == all@[i as int]@);
            let key = Self::account_executive_key(&all[i]);
            if all[i].on_hold {
                insert_sorted_unique(&mut keys, key.clone());
            }
            keyed.push(key);
            i = i + 1;
        }
        assert(entries.take(all@.len() as int) == entries);
        let mut r: Vec<(String, Vec<Project>)> = Vec::new();
        let mut j: usize = 0;
        while j < keys.len()
            invariant
                j <= keys@.len(),
                projects_view(all@) == entries,
                entries == self.repository().projects(),
                keyed@.len() == all@.len(),
                forall|k: int| 0 <= k < all@.len() ==> (#[trigger] keyed@[k])@ == hold_group_key(entries[k]),
                account_executive_group_names(r@) == strings_view(keys@).take(j as int),
                forall|k: int|
                    0 <= k < r@.len() ==> projects_view(#[trigger] r@[k].1@) == hold_group(
                        entries,
                        r@[k].0@,
                    ),
            decreases keys@.len() - j,
        {
            let key = keys[j].as_str();
            let mut group: Vec<Project> = Vec::new();
            let mut i: usize = 0;
            while i < all.len()
                invariant
                    i <= all@.len(),
                    projects_view(all@) == entries,
                    keyed@.len() == all@.len(),
                    forall|k: int| 0 <= k < all@.len() ==> (#[trigger] keyed@[k])@ == hold_group_key(entries[k]),
                    projects_view(group@) == hold_group(entries.take(i as int), key@),
                decreases all@.len() - i,
            {
                let ghost prefix = entries.take(i + 1);
                assert(prefix.drop_last() == entries.take(i as int));
                assert(prefix.last() == all@[i as int]@);
                assert(keyed@[i as int]@ == hold_group_key(entries[i as int]));
                if all[i].on_hold && crate::text::str_eq(keyed[i].as_str(), key) {
                    group.push(all[i].clone());
                    assert(projects_view(group@) =~= hold_group(entries.take(i as int), key@).push(
                        all@[i as int]@,
                    ));
                }
                i = i + 1;
            }
            assert(entries.take(all@.len() as int) == entries);
            let ghost old_r = r@;
            r.push((keys[j].clone(), group));
            assert(strings_view(keys@).take(j + 1) == strings_view(keys@).take(j as int).push(
                keys@[j as int]@,
            ));
            assert(account_executive_group_names(r@) =~= account_executive_group_names(old_r).push(
                keys@[j as int]@,
            ));
            j = j + 1;
        }
        assert(strings_view(keys@).take(keys@.len() as int) == strings_view(keys@));
        r
    }

    /// The key under which an on-hold project is filed.
    fn account_executive_key(project: &Project) -> (r: String)
        ensures
            r@ == hold_group_key(project@),
    {
        match &project.account_executive {
            Some(ae) => {
                let trimmed = trim(ae.as_str());
                if trimmed.unicode_len() > 0 {
                    return trimmed.to_owned();
                }
            },
            None => {},
        }
        let r = "No Account Executive".to_owned();
        proof {
            reveal_strlit("No Account Executive");
        }
        assert(r@ =~= no_account_executive());
        r
    }
}

} // verus!
