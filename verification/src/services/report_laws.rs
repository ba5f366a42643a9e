//! Properties of the reports that hold for every repository.
use vstd::prelude::*;
use vstd::multiset::Multiset;
use crate::models::forecast::ForecastView;
use crate::models::project::ProjectView;
use crate::db::repositories::forecast_repository::lookup_forecast;
use crate::services::forecast_service::{
    customer_of, forecast_manager_names, forecast_rows, summary_key, summary_total,
};
use crate::services::project_service::{
    account_executive_names, contract_values, hold_group, hold_group_key, hold_group_keys, lacks_forecast, manager_name,
    projects_on_hold,
    manager_names, manager_rows, projects_lacking_forecast, sanitized_comment,
    without_line_breaks,
};
use crate::text::{
    find_char, is_white_space, lemma_collapse_idempotent, lemma_find_char, lemma_join_chars,
    lemma_seq_lt_irreflexive, lemma_split_words, split_white_space, strictly_sorted, trim_spec,
};

verus! {

/// The name part of a project manager field is a prefix of the field,
/// holds no '{', and extracting it again gives it back unchanged.
pub proof fn law_manager_name_prefix(s: Seq<char>)
    ensures
        manager_name(s).len() <= s.len(),
        manager_name(s) == s.take(manager_name(s).len() as int),
        forall|k: int| 0 <= k < manager_name(s).len() ==> #[trigger] manager_name(s)[k] != '{',
        manager_name(manager_name(s)) == manager_name(s),
{
    lemma_find_char(s, '{');
    let r = manager_name(s);
    match find_char(s, '{') {
        Some(k) => {
            assert(r =~= s.take(k));
        },
        None => {
            assert(s.take(s.len() as int) =~= s);
        },
    }
    lemma_find_char(r, '{');
    if let Some(k) = find_char(r, '{') {
        assert(r[k] == '{');
    }
}

/// A sanitized hold comment fits on one line: it holds no '\n' or '\r',
/// neither starts nor ends with white space, and sanitizing it again
/// changes nothing.
pub proof fn law_sanitized_comment_single_line(s: Seq<char>)
    ensures
        forall|k: int|
            0 <= k < sanitized_comment(s).len() ==> #[trigger] sanitized_comment(s)[k] != '\n'
                && sanitized_comment(s)[k] != '\r',
        sanitized_comment(s).len() > 0 ==> !is_white_space(sanitized_comment(s)[0])
            && !is_white_space(sanitized_comment(s).last()),
        sanitized_comment(sanitized_comment(s)) == sanitized_comment(s),
{
    let m = without_line_breaks(s);
    let r = sanitized_comment(s);
    let words = split_white_space(m);
    lemma_split_words(m);
    lemma_join_chars(words);
    assert(is_white_space('\n') && is_white_space('\r'));
    if words.len() > 0 {
        assert(crate::text::is_word(words[0]));
        assert(crate::text::is_word(words[words.len() - 1]));
    }
    assert(without_line_breaks(r) =~= r) by {
        assert forall|k: int| 0 <= k < r.len() implies #[trigger] without_line_breaks(r)[k]
            == r[k] by {
            assert(r[k] == ' ' || !is_white_space(r[k]));
        }
    }
    lemma_collapse_idempotent(m);
}

/// A project is reported as lacking a forecast exactly when it is stored
/// and has no forecast, or one whose six monthly commits sum to zero.
pub proof fn law_projects_lacking_forecast_members(
    entries: Seq<ProjectView>,
    forecasts: Seq<ForecastView>,
    p: ProjectView,
)
    ensures
        projects_lacking_forecast(entries, forecasts).contains(p) <==> entries.contains(p)
            && lacks_forecast(forecasts, p),
    decreases entries.len(),
{
    if entries.len() > 0 {
        let rest = entries.drop_last();
        law_projects_lacking_forecast_members(rest, forecasts, p);
        let r0 = projects_lacking_forecast(rest, forecasts);
        let r = projects_lacking_forecast(entries, forecasts);
        if entries.contains(p) && lacks_forecast(forecasts, p) {
            let i = choose|i: int| 0 <= i < entries.len() && entries[i] == p;
            if i < entries.len() - 1 {
                assert(rest[i] == p);
                let j = choose|j: int| 0 <= j < r0.len() && r0[j] == p;
                assert(r[j] == p);
            } else {
                assert(r[r.len() - 1] == p);
            }
        }
        if r.contains(p) {
            let j = choose|j: int| 0 <= j < r.len() && r[j] == p;
            if j < r0.len() {
                assert(r0[j] == p);
                let i = choose|i: int| 0 <= i < rest.len() && rest[i] == p;
                assert(entries[i] == p);
            } else {
                assert(entries[entries.len() - 1] == p);
            }
        }
    }
}

/// Grouping projects by manager name files every project once, in the
/// group of its own manager name, with the contract values of its
/// forecast; a group exists exactly for the names that occur.
pub proof fn law_projects_grouped_by_manager(
    entries: Seq<ProjectView>,
    forecasts: Seq<ForecastView>,
    name: Seq<char>,
)
    ensures
        manager_names(entries).contains(name) <==> manager_rows(entries, forecasts, name).len()
            > 0,
        forall|j: int|
            0 <= j < manager_rows(entries, forecasts, name).len() ==> {
                let row = #[trigger] manager_rows(entries, forecasts, name)[j];
                &&& manager_name(row.0.project_manager) == name
                &&& entries.contains(row.0)
                &&& row.1 == contract_values(forecasts, row.0.project_id)
            },
        forall|k: int|
            0 <= k < entries.len() && manager_name(#[trigger] entries[k].project_manager) == name
                ==> manager_rows(entries, forecasts, name).contains(
                (entries[k], contract_values(forecasts, entries[k].project_id)),
            ),
    decreases entries.len(),
{
    if entries.len() > 0 {
        let rest = entries.drop_last();
        law_projects_grouped_by_manager(rest, forecasts, name);
        let r0 = manager_rows(rest, forecasts, name);
        let r = manager_rows(entries, forecasts, name);
        assert forall|j: int| 0 <= j < r.len() implies {
            let row = #[trigger] r[j];
            &&& manager_name(row.0.project_manager) == name
            &&& entries.contains(row.0)
            &&& row.1 == contract_values(forecasts, row.0.project_id)
        } by {
            if j < r0.len() {
                assert(r[j] == r0[j]);
                let i = choose|i: int| 0 <= i < rest.len() && rest[i] == r0[j].0;
                assert(entries[i] == rest[i]);
            } else {
                assert(entries[entries.len() - 1] == r[j].0);
            }
        }
        assert forall|k: int|
            0 <= k < entries.len() && manager_name(#[trigger] entries[k].project_manager)
                == name implies r.contains(
            (entries[k], contract_values(forecasts, entries[k].project_id)),
        ) by {
            let row = (entries[k], contract_values(forecasts, entries[k].project_id));
            if k < entries.len() - 1 {
                assert(rest[k] == entries[k]);
                assert(manager_name(rest[k].project_manager) == name);
                let j = choose|j: int| 0 <= j < r0.len() && r0[j] == row;
                assert(r[j] == row);
            } else {
                assert(r[r.len() - 1] == row);
            }
        }
    }
}

/// Grouping forecasts by manager name files every forecast once, in the
/// group of its own manager name, with the end customer of its project; a
/// group exists exactly for the names that occur.
pub proof fn law_forecasts_grouped_by_manager(
    entries: Seq<ForecastView>,
    projects: Seq<ProjectView>,
    name: Seq<char>,
)
    ensures
        forecast_manager_names(entries).contains(name) <==> forecast_rows(
            entries,
            projects,
            name,
        ).len() > 0,
        forall|j: int|
            0 <= j < forecast_rows(entries, projects, name).len() ==> {
                let row = #[trigger] forecast_rows(entries, projects, name)[j];
                &&& manager_name(row.0.project_manager) == name
                &&& entries.contains(row.0)
                &&& row.1 == customer_of(projects, row.0.project_id)
            },
        forall|k: int|
            0 <= k < entries.len() && manager_name(#[trigger] entries[k].project_manager) == name
                ==> forecast_rows(entries, projects, name).contains(
                (entries[k], customer_of(projects, entries[k].project_id)),
            ),
    decreases entries.len(),
{
    if entries.len() > 0 {
        let rest = entries.drop_last();
        law_forecasts_grouped_by_manager(rest, projects, name);
        let r0 = forecast_rows(rest, projects, name);
        let r = forecast_rows(entries, projects, name);
        assert forall|j: int| 0 <= j < r.len() implies {
            let row = #[trigger] r[j];
            &&& manager_name(row.0.project_manager) == name
            &&& entries.contains(row.0)
            &&& row.1 == customer_of(projects, row.0.project_id)
        } by {
            if j < r0.len() {
                assert(r[j] == r0[j]);
                let i = choose|i: int| 0 <= i < rest.len() && rest[i] == r0[j].0;
                assert(entries[i] == rest[i]);
            } else {
                assert(entries[entries.len() - 1] == r[j].0);
            }
        }
        assert forall|k: int|
            0 <= k < entries.len() && manager_name(#[trigger] entries[k].project_manager)
                == name implies r.contains(
            (entries[k], customer_of(projects, entries[k].project_id)),
        ) by {
            let row = (entries[k], customer_of(projects, entries[k].project_id));
            if k < entries.len() - 1 {
                assert(rest[k] == entries[k]);
                assert(manager_name(rest[k].project_manager) == name);
                let j = choose|j: int| 0 <= j < r0.len() && r0[j] == row;
                assert(r[j] == row);
            } else {
                assert(r[r.len() - 1] == row);
            }
        }
    }
}

/// Grouping on-hold projects by account executive files every on-hold
/// project once, under its own key, and no other project; a group exists
/// exactly for the keys that occur.
pub proof fn law_on_hold_grouped_by_account_executive(entries: Seq<ProjectView>, key: Seq<char>)
    ensures
        hold_group_keys(entries).contains(key) <==> hold_group(entries, key).len() > 0,
        forall|j: int|
            0 <= j < hold_group(entries, key).len() ==> {
                let p = #[trigger] hold_group(entries, key)[j];
                &&& p.on_hold
                &&& hold_group_key(p) == key
                &&& entries.contains(p)
            },
        forall|k: int|
            0 <= k < entries.len() && #[trigger] entries[k].on_hold && hold_group_key(entries[k])
                == key ==> hold_group(entries, key).contains(entries[k]),
    decreases entries.len(),
{
    if entries.len() > 0 {
        let rest = entries.drop_last();
        law_on_hold_grouped_by_account_executive(rest, key);
        let r0 = hold_group(rest, key);
        let r = hold_group(entries, key);
        assert forall|j: int| 0 <= j < r.len() implies {
            let p = #[trigger] r[j];
            &&& p.on_hold
            &&& hold_group_key(p) == key
            &&& entries.contains(p)
        } by {
            if j < r0.len() {
                assert(r[j] == r0[j]);
                let i = choose|i: int| 0 <= i < rest.len() && rest[i] == r0[j];
                assert(entries[i] == rest[i]);
            } else {
                assert(entries[entries.len() - 1] == r[j]);
            }
        }
        assert forall|k: int|
            0 <= k < entries.len() && #[trigger] entries[k].on_hold && hold_group_key(entries[k])
                == key implies r.contains(entries[k]) by {
            if k < entries.len() - 1 {
                assert(rest[k] == entries[k]);
                assert(rest[k].on_hold);
                let j = choose|j: int| 0 <= j < r0.len() && r0[j] == entries[k];
                assert(r[j] == entries[k]);
            } else {
                assert(r[r.len() - 1] == entries[k]);
            }
        }
    }
}

/// No name occurs twice.
pub open spec fn names_distinct(names: Seq<Seq<char>>) -> bool {
    forall|i: int, j: int| 0 <= i < j < names.len() ==> names[i] != names[j]
}

proof fn lemma_sorted_distinct(names: Seq<Seq<char>>)
    requires
        strictly_sorted(names),
    ensures
        names_distinct(names),
{
    assert forall|i: int, j: int| 0 <= i < j < names.len() implies names[i] != names[j] by {
        lemma_seq_lt_irreflexive(names[i]);
    }
}

/// The projects of the manager groups named `names`, together.
pub open spec fn manager_group_members(
    entries: Seq<ProjectView>,
    forecasts: Seq<ForecastView>,
    names: Seq<Seq<char>>,
) -> Multiset<ProjectView>
    decreases names.len(),
{
    if names.len() == 0 {
        Multiset::empty()
    } else {
        manager_group_members(entries, forecasts, names.drop_last()).add(
            manager_rows(entries, forecasts, names.last()).map_values(
                |r: (ProjectView, Option<(i64, i64, Seq<char>, Seq<char>)>)| r.0,
            ).to_multiset(),
        )
    }
}

proof fn lemma_manager_members_step(
    entries: Seq<ProjectView>,
    forecasts: Seq<ForecastView>,
    names: Seq<Seq<char>>,
)
    requires
        entries.len() > 0,
        names_distinct(names),
    ensures
        manager_group_members(entries, forecasts, names) == manager_group_members(
            entries.drop_last(),
            forecasts,
            names,
        ).add(
            if names.contains(manager_name(entries.last().project_manager)) {
                Multiset::singleton(entries.last())
            } else {
                Multiset::empty()
            },
        ),
    decreases names.len(),
{
    broadcast use vstd::seq_lib::group_to_multiset_ensures;

    let e0 = entries.drop_last();
    let p = entries.last();
    let key = manager_name(p.project_manager);
    if names.len() > 0 {
        let ns = names.drop_last();
        let n = names.last();
        assert(names_distinct(ns));
        lemma_manager_members_step(entries, forecasts, ns);
        let rows0 = manager_rows(e0, forecasts, n);
        let f = |r: (ProjectView, Option<(i64, i64, Seq<char>, Seq<char>)>)| r.0;
        if key == n {
            let row = (p, contract_values(forecasts, p.project_id));
            assert(rows0.push(row).map_values(f) =~= rows0.map_values(f).push(p));
            assert(!ns.contains(key)) by {
                if ns.contains(key) {
                    let i = choose|i: int| 0 <= i < ns.len() && ns[i] == key;
                    assert(names[i] == names[names.len() - 1]);
                }
            }
            assert(names.contains(key)) by {
                assert(names[names.len() - 1] == key);
            }
        } else {
            assert(names.contains(key) == ns.contains(key)) by {
                if names.contains(key) {
                    let i = choose|i: int| 0 <= i < names.len() && names[i] == key;
                    assert(ns[i] == key);
                }
            }
        }
        assert(manager_group_members(entries, forecasts, names) =~= manager_group_members(
            e0,
            forecasts,
            names,
        ).add(
            if names.contains(key) {
                Multiset::singleton(p)
            } else {
                Multiset::empty()
            },
        ));
    } else {
        assert(manager_group_members(entries, forecasts, names) =~= Multiset::empty());
    }
}

proof fn lemma_manager_members_all(
    entries: Seq<ProjectView>,
    forecasts: Seq<ForecastView>,
    names: Seq<Seq<char>>,
)
    requires
        names_distinct(names),
        forall|k: int|
            0 <= k < entries.len() ==> names.contains(
                manager_name(#[trigger] entries[k].project_manager),
            ),
    ensures
        manager_group_members(entries, forecasts, names) == entries.to_multiset(),
    decreases entries.len(),
{
    broadcast use vstd::seq_lib::group_to_multiset_ensures;

    if entries.len() == 0 {
        lemma_manager_members_empty(entries, forecasts, names);
        assert(entries.to_multiset() =~= Multiset::empty());
    } else {
        let e0 = entries.drop_last();
        assert forall|k: int| 0 <= k < e0.len() implies names.contains(
            manager_name(#[trigger] e0[k].project_manager),
        ) by {
            assert(e0[k] == entries[k]);
        }
        lemma_manager_members_all(e0, forecasts, names);
        lemma_manager_members_step(entries, forecasts, names);
        assert(names.contains(manager_name(entries[entries.len() - 1].project_manager)));
        assert(e0.push(entries.last()) =~= entries);
        assert(manager_group_members(entries, forecasts, names) =~= entries.to_multiset());
    }
}

proof fn lemma_manager_members_empty(
    entries: Seq<ProjectView>,
    forecasts: Seq<ForecastView>,
    names: Seq<Seq<char>>,
)
    requires
        entries.len() == 0,
    ensures
        manager_group_members(entries, forecasts, names) =~= Multiset::empty(),
    decreases names.len(),
{
    broadcast use vstd::seq_lib::group_to_multiset_ensures;

    if names.len() > 0 {
        lemma_manager_members_empty(entries, forecasts, names.drop_last());
        let f = |r: (ProjectView, Option<(i64, i64, Seq<char>, Seq<char>)>)| r.0;
        assert(manager_rows(entries, forecasts, names.last()).map_values(f) =~= Seq::empty());
    }
}

/// The groups of projects by manager name, taken over a sorted list of the
/// names that occur, hold every project exactly as often as the store
/// does: together they are a permutation of the projects, and no group is
/// empty.
pub proof fn law_manager_groups_permute_projects(
    entries: Seq<ProjectView>,
    forecasts: Seq<ForecastView>,
    names: Seq<Seq<char>>,
)
    requires
        strictly_sorted(names),
        names.to_set() == manager_names(entries),
    ensures
        manager_group_members(entries, forecasts, names) == entries.to_multiset(),
        forall|i: int|
            0 <= i < names.len() ==> manager_rows(entries, forecasts, #[trigger] names[i]).len()
                > 0,
{
    assert forall|i: int| 0 <= i < names.len() implies manager_rows(
        entries,
        forecasts,
        #[trigger] names[i],
    ).len() > 0 by {
        law_projects_grouped_by_manager(entries, forecasts, names[i]);
        assert(names.to_set().contains(names[i]));
    }
    lemma_sorted_distinct(names);
    assert forall|k: int| 0 <= k < entries.len() implies names.contains(
        manager_name(#[trigger] entries[k].project_manager),
    ) by {
        let n = manager_name(entries[k].project_manager);
        law_projects_grouped_by_manager(entries, forecasts, n);
        assert(names.to_set().contains(n));
    }
    lemma_manager_members_all(entries, forecasts, names);
}

/// The forecasts of the manager groups named `names`, together.
pub open spec fn forecast_group_members(
    entries: Seq<ForecastView>,
    projects: Seq<ProjectView>,
    names: Seq<Seq<char>>,
) -> Multiset<ForecastView>
    decreases names.len(),
{
    if names.len() == 0 {
        Multiset::empty()
    } else {
        forecast_group_members(entries, projects, names.drop_last()).add(
            forecast_rows(entries, projects, names.last()).map_values(
                |r: (ForecastView, Option<Seq<char>>)| r.0,
            ).to_multiset(),
        )
    }
}

proof fn lemma_forecast_members_step(
    entries: Seq<ForecastView>,
    projects: Seq<ProjectView>,
    names: Seq<Seq<char>>,
)
    requires
        entries.len() > 0,
        names_distinct(names),
    ensures
        forecast_group_members(entries, projects, names) == forecast_group_members(
            entries.drop_last(),
            projects,
            names,
        ).add(
            if names.contains(manager_name(entries.last().project_manager)) {
                Multiset::singleton(entries.last())
            } else {
                Multiset::empty()
            },
        ),
    decreases names.len(),
{
    broadcast use vstd::seq_lib::group_to_multiset_ensures;

    let e0 = entries.drop_last();
    let p = entries.last();
    let key = manager_name(p.project_manager);
    if names.len() > 0 {
        let ns = names.drop_last();
        let n = names.last();
        assert(names_distinct(ns));
        lemma_forecast_members_step(entries, projects, ns);
        let rows0 = forecast_rows(e0, projects, n);
        let f = |r: (ForecastView, Option<Seq<char>>)| r.0;
        if key == n {
            let row = (p, customer_of(projects, p.project_id));
            assert(rows0.push(row).map_values(f) =~= rows0.map_values(f).push(p));
            assert(!ns.contains(key)) by {
                if ns.contains(key) {
                    let i = choose|i: int| 0 <= i < ns.len() && ns[i] == key;
                    assert(names[i] == names[names.len() - 1]);
                }
            }
            assert(names.contains(key)) by {
                assert(names[names.len() - 1] == key);
            }
        } else {
            assert(names.contains(key) == ns.contains(key)) by {
                if names.contains(key) {
                    let i = choose|i: int| 0 <= i < names.len() && names[i] == key;
                    assert(ns[i] == key);
                }
            }
        }
        assert(forecast_group_members(entries, projects, names) =~= forecast_group_members(
            e0,
            projects,
            names,
        ).add(
            if names.contains(key) {
                Multiset::singleton(p)
            } else {
                Multiset::empty()
            },
        ));
    } else {
        assert(forecast_group_members(entries, projects, names) =~= Multiset::empty());
    }
}

proof fn lemma_forecast_members_all(
    entries: Seq<ForecastView>,
    projects: Seq<ProjectView>,
    names: Seq<Seq<char>>,
)
    requires
        names_distinct(names),
        forall|k: int|
            0 <= k < entries.len() ==> names.contains(
                manager_name(#[trigger] entries[k].project_manager),
            ),
    ensures
        forecast_group_members(entries, projects, names) == entries.to_multiset(),
    decreases entries.len(),
{
    broadcast use vstd::seq_lib::group_to_multiset_ensures;

    if entries.len() == 0 {
        lemma_forecast_members_empty(entries, projects, names);
        assert(entries.to_multiset() =~= Multiset::empty());
    } else {
        let e0 = entries.drop_last();
        assert forall|k: int| 0 <= k < e0.len() implies names.contains(
            manager_name(#[trigger] e0[k].project_manager),
        ) by {
            assert(e0[k] == entries[k]);
        }
        lemma_forecast_members_all(e0, projects, names);
        lemma_forecast_members_step(entries, projects, names);
        assert(names.contains(manager_name(entries[entries.len() - 1].project_manager)));
        assert(e0.push(entries.last()) =~= entries);
        assert(forecast_group_members(entries, projects, names) =~= entries.to_multiset());
    }
}

proof fn lemma_forecast_members_empty(
    entries: Seq<ForecastView>,
    projects: Seq<ProjectView>,
    names: Seq<Seq<char>>,
)
    requires
        entries.len() == 0,
    ensures
        forecast_group_members(entries, projects, names) =~= Multiset::empty(),
    decreases names.len(),
{
    broadcast use vstd::seq_lib::group_to_multiset_ensures;

    if names.len() > 0 {
        lemma_forecast_members_empty(entries, projects, names.drop_last());
        let f = |r: (ForecastView, Option<Seq<char>>)| r.0;
        assert(forecast_rows(entries, projects, names.last()).map_values(f) =~= Seq::empty());
    }
}

/// The groups of forecasts by manager name, taken over a sorted list of the
/// names that occur, hold every forecast exactly as often as the store
/// does: together they are a permutation of the forecasts, and no group is
/// empty.
pub proof fn law_manager_groups_permute_forecasts(
    entries: Seq<ForecastView>,
    projects: Seq<ProjectView>,
    names: Seq<Seq<char>>,
)
    requires
        strictly_sorted(names),
        names.to_set() == forecast_manager_names(entries),
    ensures
        forecast_group_members(entries, projects, names) == entries.to_multiset(),
        forall|i: int|
            0 <= i < names.len() ==> forecast_rows(entries, projects, #[trigger] names[i]).len()
                > 0,
{
    assert forall|i: int| 0 <= i < names.len() implies forecast_rows(
        entries,
        projects,
        #[trigger] names[i],
    ).len() > 0 by {
        law_forecasts_grouped_by_manager(entries, projects, names[i]);
        assert(names.to_set().contains(names[i]));
    }
    lemma_sorted_distinct(names);
    assert forall|k: int| 0 <= k < entries.len() implies names.contains(
        manager_name(#[trigger] entries[k].project_manager),
    ) by {
        let n = manager_name(entries[k].project_manager);
        law_forecasts_grouped_by_manager(entries, projects, n);
        assert(names.to_set().contains(n));
    }
    lemma_forecast_members_all(entries, projects, names);
}


/// The on-hold projects of the account executive groups keyed by `keys`,
/// together.
pub open spec fn hold_group_members(entries: Seq<ProjectView>, keys: Seq<Seq<char>>) -> Multiset<
    ProjectView,
>
    decreases keys.len(),
{
    if keys.len() == 0 {
        Multiset::empty()
    } else {
        hold_group_members(entries, keys.drop_last()).add(
            hold_group(entries, keys.last()).to_multiset(),
        )
    }
}

proof fn lemma_hold_members_step(entries: Seq<ProjectView>, keys: Seq<Seq<char>>)
    requires
        entries.len() > 0,
        names_distinct(keys),
    ensures
        hold_group_members(entries, keys) == hold_group_members(entries.drop_last(), keys).add(
            if entries.last().on_hold && keys.contains(hold_group_key(entries.last())) {
                Multiset::singleton(entries.last())
            } else {
                Multiset::empty()
            },
        ),
    decreases keys.len(),
{
    broadcast use vstd::seq_lib::group_to_multiset_ensures;

    let e0 = entries.drop_last();
    let p = entries.last();
    let key = hold_group_key(p);
    if keys.len() > 0 {
        let ks = keys.drop_last();
        let n = keys.last();
        assert(names_distinct(ks));
        lemma_hold_members_step(entries, ks);
        if key == n {
            assert(!ks.contains(key)) by {
                if ks.contains(key) {
                    let i = choose|i: int| 0 <= i < ks.len() && ks[i] == key;
                    assert(keys[i] == keys[keys.len() - 1]);
                }
            }
            assert(keys.contains(key)) by {
                assert(keys[keys.len() - 1] == key);
            }
        } else {
            assert(keys.contains(key) == ks.contains(key)) by {
                if keys.contains(key) {
                    let i = choose|i: int| 0 <= i < keys.len() && keys[i] == key;
                    assert(ks[i] == key);
                }
            }
        }
        assert(hold_group_members(entries, keys) =~= hold_group_members(e0, keys).add(
            if p.on_hold && keys.contains(key) {
                Multiset::singleton(p)
            } else {
                Multiset::empty()
            },
        ));
    } else {
        assert(hold_group_members(entries, keys) =~= Multiset::empty());
    }
}

proof fn lemma_hold_members_empty(entries: Seq<ProjectView>, keys: Seq<Seq<char>>)
    requires
        entries.len() == 0,
    ensures
        hold_group_members(entries, keys) =~= Multiset::empty(),
    decreases keys.len(),
{
    broadcast use vstd::seq_lib::group_to_multiset_ensures;

    if keys.len() > 0 {
        lemma_hold_members_empty(entries, keys.drop_last());
        assert(hold_group(entries, keys.last()) =~= Seq::empty());
    }
}

proof fn lemma_hold_members_all(entries: Seq<ProjectView>, keys: Seq<Seq<char>>)
    requires
        names_distinct(keys),
        forall|k: int|
            0 <= k < entries.len() && #[trigger] entries[k].on_hold ==> keys.contains(
                hold_group_key(entries[k]),
            ),
    ensures
        hold_group_members(entries, keys) == projects_on_hold(entries).to_multiset(),
    decreases entries.len(),
{
    broadcast use vstd::seq_lib::group_to_multiset_ensures;

    if entries.len() == 0 {
        lemma_hold_members_empty(entries, keys);
        assert(projects_on_hold(entries).to_multiset() =~= Multiset::empty());
    } else {
        let e0 = entries.drop_last();
        assert forall|k: int| 0 <= k < e0.len() && #[trigger] e0[k].on_hold implies keys.contains(
            hold_group_key(e0[k]),
        ) by {
            assert(e0[k] == entries[k]);
        }
        lemma_hold_members_all(e0, keys);
        lemma_hold_members_step(entries, keys);
        if entries.last().on_hold {
            assert(entries[entries.len() - 1].on_hold);
            assert(keys.contains(hold_group_key(entries[entries.len() - 1])));
        }
        assert(hold_group_members(entries, keys) =~= projects_on_hold(entries).to_multiset());
    }
}

/// The groups of on-hold projects by account executive, taken over a sorted
/// list of the keys that occur, hold every on-hold project exactly as often
/// as the store does, and no other: together they are a permutation of the
/// on-hold projects, and no group is empty.
pub proof fn law_hold_groups_permute_on_hold_projects(
    entries: Seq<ProjectView>,
    keys: Seq<Seq<char>>,
)
    requires
        strictly_sorted(keys),
        keys.to_set() == hold_group_keys(entries),
    ensures
        hold_group_members(entries, keys) == projects_on_hold(entries).to_multiset(),
        forall|i: int| 0 <= i < keys.len() ==> hold_group(entries, #[trigger] keys[i]).len() > 0,
{
    assert forall|i: int| 0 <= i < keys.len() implies hold_group(
        entries,
        #[trigger] keys[i],
    ).len() > 0 by {
        law_on_hold_grouped_by_account_executive(entries, keys[i]);
        assert(keys.to_set().contains(keys[i]));
    }
    lemma_sorted_distinct(keys);
    assert forall|k: int| 0 <= k < entries.len() && #[trigger] entries[k].on_hold implies keys.contains(
        hold_group_key(entries[k]),
    ) by {
        let n = hold_group_key(entries[k]);
        law_on_hold_grouped_by_account_executive(entries, n);
        assert(keys.to_set().contains(n));
    }
    lemma_hold_members_all(entries, keys);
}


/// A stored project is reported as lacking a forecast exactly when no
/// forecast is stored under its id, or the six monthly commits of the
/// stored one add up to 0.
pub proof fn law_lacking_forecast_sums_six_months(
    entries: Seq<ProjectView>,
    forecasts: Seq<ForecastView>,
    p: ProjectView,
)
    requires
        entries.contains(p),
    ensures
        projects_lacking_forecast(entries, forecasts).contains(p) <==> match lookup_forecast(
            forecasts,
            p.project_id,
        ) {
            None => true,
            Some(f) => f.month1_labor_revenue_commit + f.month2_labor_revenue_commit
                + f.month3_labor_revenue_commit + f.month4_labor_revenue_commit
                + f.month5_labor_revenue_commit + f.month6_labor_revenue_commit == 0,
        },
{
    law_projects_lacking_forecast_members(entries, forecasts, p);
}

/// The monthly revenue total under a name starts at 0 and grows, project
/// by project, by the commit of that month of the project's forecast when
/// the project is filed under that name and has one; a project filed under
/// another name, or under none, adds nothing to any month.
pub proof fn law_summary_total_counts_only_its_projects(
    by_account_executive: bool,
    entries: Seq<ProjectView>,
    forecasts: Seq<ForecastView>,
    key: Seq<char>,
    month: int,
    p: ProjectView,
)
    requires
        1 <= month <= 6,
    ensures
        summary_total(by_account_executive, Seq::empty(), forecasts, key, month) == 0,
        summary_key(by_account_executive, p) != Some(key) ==> summary_total(
            by_account_executive,
            entries.push(p),
            forecasts,
            key,
            month,
        ) == summary_total(by_account_executive, entries, forecasts, key, month),
        summary_key(by_account_executive, p) == Some(key) ==> summary_total(
            by_account_executive,
            entries.push(p),
            forecasts,
            key,
            month,
        ) == summary_total(by_account_executive, entries, forecasts, key, month) + match lookup_forecast(
            forecasts,
            p.project_id,
        ) {
            None => 0int,
            Some(f) => if month == 1 {
                f.month1_labor_revenue_commit as int
            } else if month == 2 {
                f.month2_labor_revenue_commit as int
            } else if month == 3 {
                f.month3_labor_revenue_commit as int
            } else if month == 4 {
                f.month4_labor_revenue_commit as int
            } else if month == 5 {
                f.month5_labor_revenue_commit as int
            } else {
                f.month6_labor_revenue_commit as int
            },
        },
{
    assert(entries.push(p).drop_last() =~= entries);
}

/// Whether the trimmed account executive of `p` is `name`.
pub open spec fn has_account_executive(p: ProjectView, name: Seq<char>) -> bool {
    match p.account_executive {
        Some(ae) => trim_spec(ae) == name,
        None => false,
    }
}

/// The account executive names are the trimmed, non-blank account
/// executives of all stored projects, on hold or not.
pub proof fn law_account_executive_names_of_all_projects(
    entries: Seq<ProjectView>,
    name: Seq<char>,
)
    ensures
        account_executive_names(entries).contains(name) <==> name.len() > 0 && exists|k: int|
            0 <= k < entries.len() && has_account_executive(#[trigger] entries[k], name),
    decreases entries.len(),
{
    if entries.len() > 0 {
        let rest = entries.drop_last();
        law_account_executive_names_of_all_projects(rest, name);
        if exists|k: int|
            0 <= k < rest.len() && has_account_executive(#[trigger] rest[k], name) {
            let k = choose|k: int|
                0 <= k < rest.len() && has_account_executive(#[trigger] rest[k], name);
            assert(entries[k] == rest[k]);
        }
        if exists|k: int|
            0 <= k < entries.len() && has_account_executive(#[trigger] entries[k], name) {
            let k = choose|k: int|
                0 <= k < entries.len() && has_account_executive(#[trigger] entries[k], name);
            if k < rest.len() {
                assert(rest[k] == entries[k]);
            }
        }
    }
}

} // verus!
