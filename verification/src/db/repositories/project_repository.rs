//! The store of projects, keyed by project id.
use vstd::prelude::*;
use crate::db::repositories::keyed::{
    key_position, key_position_from, keys_distinct, lemma_key_position, lemma_key_position_unique,
};
use crate::models::project::{projects_view, Project, ProjectView};
use crate::text::str_eq;

verus! {

/// The project ids of a sequence of projects.
pub open spec fn project_ids(entries: Seq<ProjectView>) -> Seq<Seq<char>> {
    entries.map_values(|p: ProjectView| p.project_id)
}

/// The entries after storing `p`: it replaces the entry with the same id in
/// place, or is appended when there is none.
pub open spec fn upsert_project(entries: Seq<ProjectView>, p: ProjectView) -> Seq<ProjectView> {
    let i = key_position(project_ids(entries), p.project_id);
    if i >= 0 {
        entries.update(i, p)
    } else {
        entries.push(p)
    }
}

/// The entry with the given id, if any.
pub open spec fn lookup_project(entries: Seq<ProjectView>, id: Seq<char>) -> Option<ProjectView> {
    let i = key_position(project_ids(entries), id);
    if i >= 0 {
        Some(entries[i])
    } else {
        None
    }
}

/// The entries after deleting the one with the given id, if any.
pub open spec fn remove_project(entries: Seq<ProjectView>, id: Seq<char>) -> Seq<ProjectView> {
    let i = key_position(project_ids(entries), id);
    if i >= 0 {
        entries.remove(i)
    } else {
        entries
    }
}

/// Storing a project, then reading its id, gives the project back.
pub proof fn law_find_after_insert(entries: Seq<ProjectView>, p: ProjectView)
    requires
        keys_distinct(project_ids(entries)),
    ensures
        lookup_project(upsert_project(entries, p), p.project_id) == Some(p),
{
    let ids = project_ids(entries);
    lemma_key_position(ids, p.project_id);
    let e2 = upsert_project(entries, p);
    let i = key_position(ids, p.project_id);
    if i >= 0 {
        assert(project_ids(e2) =~= ids);
        lemma_key_position_unique(project_ids(e2), p.project_id, i);
    } else {
        assert(project_ids(e2) =~= ids.push(p.project_id));
        lemma_upsert_distinct(entries, p);
        lemma_key_position_unique(project_ids(e2), p.project_id, entries.len() as int);
    }
}

/// Storing a project keeps ids distinct.
pub proof fn lemma_upsert_distinct(entries: Seq<ProjectView>, p: ProjectView)
    requires
        keys_distinct(project_ids(entries)),
    ensures
        keys_distinct(project_ids(upsert_project(entries, p))),
        project_ids(upsert_project(entries, p)) == if lookup_project(entries, p.project_id) is Some {
            project_ids(entries)
        } else {
            project_ids(entries).push(p.project_id)
        },
{
    let ids = project_ids(entries);
    lemma_key_position(ids, p.project_id);
    let i = key_position(ids, p.project_id);
    if i >= 0 {
        assert(project_ids(entries.update(i, p)) =~= ids);
    } else {
        assert(project_ids(entries.push(p)) =~= ids.push(p.project_id));
    }
}

/// Storing a project leaves what is read under any other id unchanged.
pub proof fn law_insert_keeps_others(entries: Seq<ProjectView>, p: ProjectView, id: Seq<char>)
    requires
        keys_distinct(project_ids(entries)),
        id != p.project_id,
    ensures
        lookup_project(upsert_project(entries, p), id) == lookup_project(entries, id),
{
    let ids = project_ids(entries);
    let e2 = upsert_project(entries, p);
    lemma_upsert_distinct(entries, p);
    lemma_key_position(ids, id);
    lemma_key_position(ids, p.project_id);
    lemma_key_position(project_ids(e2), id);
    let j = key_position(ids, id);
    if j >= 0 {
        assert(project_ids(e2)[j] == id);
        lemma_key_position_unique(project_ids(e2), id, j);
    } else {
        assert forall|k: int| 0 <= k < project_ids(e2).len() implies project_ids(e2)[k] != id by {
            if k < ids.len() {
                assert(project_ids(e2)[k] == ids[k]);
            }
        }
    }
}

/// Storing a project under an id already stored keeps the number of
/// projects; under a new id it adds one.
pub proof fn law_insert_count(entries: Seq<ProjectView>, p: ProjectView)
    requires
        keys_distinct(project_ids(entries)),
    ensures
        upsert_project(entries, p).len() == entries.len() + if lookup_project(
            entries,
            p.project_id,
        ) is Some {
            0int
        } else {
            1int
        },
{
    lemma_key_position(project_ids(entries), p.project_id);
}

/// Storing the same project twice is the same as storing it once.
pub proof fn law_insert_idempotent(entries: Seq<ProjectView>, p: ProjectView)
    requires
        keys_distinct(project_ids(entries)),
    ensures
        upsert_project(upsert_project(entries, p), p) == upsert_project(entries, p),
{
    let e2 = upsert_project(entries, p);
    lemma_upsert_distinct(entries, p);
    law_find_after_insert(entries, p);
    let k = key_position(project_ids(e2), p.project_id);
    lemma_key_position(project_ids(e2), p.project_id);
    assert(e2[k] == p);
    assert(e2.update(k, p) =~= e2);
}

/// After deleting an id, nothing is read under it.
pub proof fn law_find_after_delete(entries: Seq<ProjectView>, id: Seq<char>)
    requires
        keys_distinct(project_ids(entries)),
    ensures
        lookup_project(remove_project(entries, id), id) is None,
{
    let ids = project_ids(entries);
    lemma_key_position(ids, id);
    let e2 = remove_project(entries, id);
    let i = key_position(ids, id);
    lemma_key_position(project_ids(e2), id);
    if i >= 0 {
        assert(project_ids(e2) =~= ids.remove(i));
        if key_position(project_ids(e2), id) >= 0 {
            let j = key_position(project_ids(e2), id);
            if j < i {
                assert(ids[j] == id);
            } else {
                assert(ids[j + 1] == id);
            }
        }
    }
}

/// Deleting an id leaves what is read under any other id unchanged.
pub proof fn law_delete_keeps_others(entries: Seq<ProjectView>, id: Seq<char>, other: Seq<char>)
    requires
        keys_distinct(project_ids(entries)),
        other != id,
    ensures
        lookup_project(remove_project(entries, id), other) == lookup_project(entries, other),
{
    let ids = project_ids(entries);
    lemma_key_position(ids, id);
    lemma_key_position(ids, other);
    let e2 = remove_project(entries, id);
    let i = key_position(ids, id);
    let j = key_position(ids, other);
    lemma_key_position(project_ids(e2), other);
    if i >= 0 {
        assert(project_ids(e2) =~= ids.remove(i));
        assert(keys_distinct(project_ids(e2)));
        if j >= 0 {
            if j < i {
                lemma_key_position_unique(project_ids(e2), other, j);
            } else {
                assert(project_ids(e2)[j - 1] == other);
                lemma_key_position_unique(project_ids(e2), other, j - 1);
            }
        } else {
            assert forall|k: int| 0 <= k < project_ids(e2).len() implies project_ids(e2)[k]
                != other by {
                if k < i {
                    assert(project_ids(e2)[k] == ids[k]);
                } else {
                    assert(project_ids(e2)[k] == ids[k + 1]);
                }
            }
        }
    }
}

/// Deleting a stored id removes one project; deleting an absent id
/// changes nothing.
pub proof fn law_delete_count(entries: Seq<ProjectView>, id: Seq<char>)
    requires
        keys_distinct(project_ids(entries)),
    ensures
        remove_project(entries, id).len() == entries.len() - if lookup_project(entries, id) is Some {
            1int
        } else {
            0int
        },
        lookup_project(entries, id) is None ==> remove_project(entries, id) == entries,
{
    lemma_key_position(project_ids(entries), id);
}

/// Deleting a project just stored under a new id restores the store.
pub proof fn law_delete_undoes_insert(entries: Seq<ProjectView>, p: ProjectView)
    requires
        keys_distinct(project_ids(entries)),
        lookup_project(entries, p.project_id) is None,
    ensures
        remove_project(upsert_project(entries, p), p.project_id) == entries,
{
    let ids = project_ids(entries);
    lemma_key_position(ids, p.project_id);
    lemma_upsert_distinct(entries, p);
    let e2 = upsert_project(entries, p);
    lemma_key_position_unique(project_ids(e2), p.project_id, entries.len() as int);
    assert(e2.remove(entries.len() as int) =~= entries);
}

/// The entries after storing the projects of `q` one after the other.
pub open spec fn upsert_projects(entries: Seq<ProjectView>, q: Seq<ProjectView>) -> Seq<
    ProjectView,
>
    decreases q.len(),
{
    if q.len() == 0 {
        entries
    } else {
        upsert_project(upsert_projects(entries, q.drop_last()), q.last())
    }
}

/// The last project of `q` with the given id, if any.
pub open spec fn last_project_with_id(q: Seq<ProjectView>, id: Seq<char>) -> Option<ProjectView>
    decreases q.len(),
{
    if q.len() == 0 {
        None
    } else if q.last().project_id == id {
        Some(q.last())
    } else {
        last_project_with_id(q.drop_last(), id)
    }
}

/// After storing a batch, each id reads the batch's last project with that
/// id, or what it read before when the batch has none.
pub proof fn lemma_upsert_projects_lookup(entries: Seq<ProjectView>, q: Seq<ProjectView>)
    requires
        keys_distinct(project_ids(entries)),
    ensures
        keys_distinct(project_ids(upsert_projects(entries, q))),
        forall|id: Seq<char>|
            #[trigger] lookup_project(upsert_projects(entries, q), id) == match last_project_with_id(
                q,
                id,
            ) {
                Some(p) => Some(p),
                None => lookup_project(entries, id),
            },
    decreases q.len(),
{
    if q.len() > 0 {
        lemma_upsert_projects_lookup(entries, q.drop_last());
        let x = upsert_projects(entries, q.drop_last());
        let p = q.last();
        lemma_upsert_distinct(x, p);
        law_find_after_insert(x, p);
        assert forall|id: Seq<char>|
            #[trigger] lookup_project(upsert_projects(entries, q), id) == match last_project_with_id(
                q,
                id,
            ) {
                Some(v) => Some(v),
                None => lookup_project(entries, id),
            } by {
            if id != p.project_id {
                law_insert_keeps_others(x, p, id);
            }
        }
    }
}

/// Every id of a batch has a last project in it.
proof fn lemma_last_project_exists(q: Seq<ProjectView>, i: int)
    requires
        0 <= i < q.len(),
    ensures
        last_project_with_id(q, q[i].project_id) is Some,
    decreases q.len(),
{
    if q.last().project_id != q[i].project_id {
        assert(q.drop_last()[i] == q[i]);
        lemma_last_project_exists(q.drop_last(), i);
    }
}

/// Storing a batch whose ids are all stored already only replaces entries
/// in place: the ids keep their order.
proof fn lemma_upsert_projects_in_place(entries: Seq<ProjectView>, q: Seq<ProjectView>)
    requires
        keys_distinct(project_ids(entries)),
        forall|i: int| 0 <= i < q.len() ==> lookup_project(entries, #[trigger] q[i].project_id) is Some,
    ensures
        project_ids(upsert_projects(entries, q)) == project_ids(entries),
    decreases q.len(),
{
    if q.len() > 0 {
        let q0 = q.drop_last();
        assert forall|i: int| 0 <= i < q0.len() implies lookup_project(
            entries,
            #[trigger] q0[i].project_id,
        ) is Some by {
            assert(q0[i] == q[i]);
        }
        lemma_upsert_projects_in_place(entries, q0);
        lemma_upsert_projects_lookup(entries, q0);
        let x = upsert_projects(entries, q0);
        let p = q.last();
        assert(lookup_project(entries, q[q.len() - 1].project_id) is Some);
        lemma_upsert_distinct(x, p);
    }
}

/// Two sequences of projects with the same ids, read the same under every
/// id, are equal.
proof fn lemma_same_lookups(a: Seq<ProjectView>, b: Seq<ProjectView>)
    requires
        project_ids(a) == project_ids(b),
        keys_distinct(project_ids(a)),
        forall|id: Seq<char>| lookup_project(a, id) == lookup_project(b, id),
    ensures
        a == b,
{
    assert(a.len() == project_ids(a).len());
    assert(b.len() == project_ids(b).len());
    assert forall|i: int| 0 <= i < a.len() implies a[i] == b[i] by {
        let id = project_ids(a)[i];
        lemma_key_position_unique(project_ids(a), id, i);
        assert(lookup_project(a, id) == lookup_project(b, id));
    }
    assert(a =~= b);
}

/// Storing the same batch of projects twice is the same as storing it
/// once.
pub proof fn law_upsert_projects_twice(entries: Seq<ProjectView>, q: Seq<ProjectView>)
    requires
        keys_distinct(project_ids(entries)),
    ensures
        upsert_projects(upsert_projects(entries, q), q) == upsert_projects(entries, q),
{
    let s = upsert_projects(entries, q);
    lemma_upsert_projects_lookup(entries, q);
    assert forall|i: int| 0 <= i < q.len() implies lookup_project(s, #[trigger] q[i].project_id)
        is Some by {
        lemma_last_project_exists(q, i);
    }
    lemma_upsert_projects_in_place(s, q);
    lemma_upsert_projects_lookup(s, q);
    let r = upsert_projects(s, q);
    assert forall|id: Seq<char>| lookup_project(r, id) == lookup_project(s, id) by {
        assert(lookup_project(r, id) == lookup_project(r, id));
        assert(lookup_project(s, id) == lookup_project(s, id));
    }
    lemma_same_lookups(r, s);
}

/// Operations of a store of projects. Its contents are a sequence of
/// projects with distinct ids, in the order in which `find_all` lists them.
pub trait ProjectRepositoryTrait {
    /// The stored projects, in listing order.
    spec fn project_entries(&self) -> Seq<ProjectView>;

    /// Stores `project`, replacing the project with the same id if there is one.
    fn insert(&mut self, project: Project)
        requires
            keys_distinct(project_ids(old(self).project_entries())),
        ensures
            final(self).project_entries() == upsert_project(old(self).project_entries(), project@),
            keys_distinct(project_ids(final(self).project_entries())),
    ;

    /// All stored projects.
    fn find_all(&self) -> (r: Vec<Project>)
        ensures
            projects_view(r@) == self.project_entries(),
    ;

    /// The stored project with the given id, if any.
    fn find_by_id(&self, project_id: &str) -> (r: Option<Project>)
        ensures
            match r {
                Some(p) => lookup_project(self.project_entries(), project_id@) == Some(p@),
                None => lookup_project(self.project_entries(), project_id@) is None,
            },
    ;

    /// Deletes the project with the given id; tells whether there was one.
    fn delete_by_id(&mut self, project_id: &str) -> (r: bool)
        requires
            keys_distinct(project_ids(old(self).project_entries())),
        ensures
            r == (lookup_project(old(self).project_entries(), project_id@) is Some),
            final(self).project_entries() == remove_project(
                old(self).project_entries(),
                project_id@,
            ),
            keys_distinct(project_ids(final(self).project_entries())),
    ;
}

/// An in-memory store of projects.
pub struct ProjectRepository {
    data: Vec<Project>,
}

impl ProjectRepository {
    /// An empty store.
    pub fn new() -> (r: Self)
        ensures
            r.project_entries() == Seq::<ProjectView>::empty(),
    {
        let r = ProjectRepository { data: Vec::new() };
        assert(projects_view(r.data@) =~= Seq::<ProjectView>::empty());
        r
    }

    /// The index of the stored project with the given id.
    fn position_of(&self, project_id: &str) -> (r: Option<usize>)
        ensures
            match r {
                Some(k) => key_position(project_ids(self.project_entries()), project_id@)
                    == k as int,
                None => key_position(project_ids(self.project_entries()), project_id@) == -1,
            },
            r matches Some(k) ==> k < self.data@.len(),
    {
        let ghost keys = project_ids(self.project_entries());
        let mut i: usize = 0;
        while i < self.data.len()
            invariant
                i <= self.data@.len(),
                keys == project_ids(self.project_entries()),
                keys.len() == self.data@.len(),
                key_position(keys, project_id@) == key_position_from(keys, project_id@, i as int),
            decreases self.data@.len() - i,
        {
            assert(keys[i as int] == self.data@[i as int].project_id@);
            if str_eq(self.data[i].project_id.as_str(), project_id) {
                return Some(i);
            }
            i = i + 1;
        }
        None
    }
}

impl ProjectRepositoryTrait for ProjectRepository {
    closed spec fn project_entries(&self) -> Seq<ProjectView> {
        projects_view(self.data@)
    }

    fn insert(&mut self, project: Project) {
        let ghost old_entries = self.project_entries();
        proof {
            lemma_key_position(project_ids(old_entries), project@.project_id);
        }
        match self.position_of(project.project_id.as_str()) {
            Some(k) => {
                self.data.set(k, project);
                assert(self.project_entries() =~= old_entries.update(k as int, project@));
                assert(project_ids(self.project_entries()) =~= project_ids(old_entries));
            },
            None => {
                self.data.push(project);
                assert(self.project_entries() =~= old_entries.push(project@));
                assert(project_ids(self.project_entries()) =~= project_ids(old_entries).push(
                    project@.project_id,
                ));
            },
        }
    }

    fn find_all(&self) -> (r: Vec<Project>) {
        let mut r: Vec<Project> = Vec::new();
        let mut i: usize = 0;
        while i < self.data.len()
            invariant
                i <= self.data@.len(),
                projects_view(r@) == projects_view(self.data@).take(i as int),
            decreases self.data@.len() - i,
        {
            r.push(self.data[i].clone());
            assert(projects_view(self.data@).take(i + 1) =~= projects_view(self.data@).take(
                i as int,
            ).push(self.data@[i as int]@));
            assert(projects_view(r@) =~= projects_view(self.data@).take(i + 1));
            i = i + 1;
        }
        assert(projects_view(self.data@).take(self.data@.len() as int) =~= projects_view(
            self.data@,
        ));
        r
    }

    fn find_by_id(&self, project_id: &str) -> (r: Option<Project>) {
        match self.position_of(project_id) {
            Some(k) => Some(self.data[k].clone()),
            None => None,
        }
    }

    fn delete_by_id(&mut self, project_id: &str) -> (r: bool) {
        let ghost old_entries = self.project_entries();
        match self.position_of(project_id) {
            Some(k) => {
                self.data.remove(k);
                assert(self.project_entries() =~= old_entries.remove(k as int));
                assert(project_ids(self.project_entries()) =~= project_ids(old_entries).remove(
                    k as int,
                ));
                true
            },
            None => false,
        }
    }
}

} // verus!
