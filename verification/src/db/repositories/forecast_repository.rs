//! The store of forecasts, keyed by project id.
use vstd::prelude::*;
use crate::db::repositories::keyed::{
    key_position, key_position_from, keys_distinct, lemma_key_position, lemma_key_position_unique,
};
use crate::models::forecast::{forecasts_view, Forecast, ForecastView};
use crate::text::str_eq;

verus! {

/// The project ids of a sequence of forecasts.
pub open spec fn forecast_ids(entries: Seq<ForecastView>) -> Seq<Seq<char>> {
    entries.map_values(|f: ForecastView| f.project_id)
}

/// The entries after storing `p`: it replaces the entry with the same id in
/// place, or is appended when there is none.
pub open spec fn upsert_forecast(entries: Seq<ForecastView>, p: ForecastView) -> Seq<ForecastView> {
    let i = key_position(forecast_ids(entries), p.project_id);
    if i >= 0 {
        entries.update(i, p)
    } else {
        entries.push(p)
    }
}

/// The entry with the given id, if any.
pub open spec fn lookup_forecast(entries: Seq<ForecastView>, id: Seq<char>) -> Option<ForecastView> {
    let i = key_position(forecast_ids(entries), id);
    if i >= 0 {
        Some(entries[i])
    } else {
        None
    }
}

/// Storing a forecast, then reading its id, gives the forecast back.
pub proof fn law_find_after_insert(entries: Seq<ForecastView>, p: ForecastView)
    requires
        keys_distinct(forecast_ids(entries)),
    ensures
        lookup_forecast(upsert_forecast(entries, p), p.project_id) == Some(p),
{
    let ids = forecast_ids(entries);
    lemma_key_position(ids, p.project_id);
    let e2 = upsert_forecast(entries, p);
    let i = key_position(ids, p.project_id);
    if i >= 0 {
        assert(forecast_ids(e2) =~= ids);
        lemma_key_position_unique(forecast_ids(e2), p.project_id, i);
    } else {
        assert(forecast_ids(e2) =~= ids.push(p.project_id));
        lemma_upsert_distinct(entries, p);
        lemma_key_position_unique(forecast_ids(e2), p.project_id, entries.len() as int);
    }
}

/// Storing a forecast keeps ids distinct.
pub proof fn lemma_upsert_distinct(entries: Seq<ForecastView>, p: ForecastView)
    requires
        keys_distinct(forecast_ids(entries)),
    ensures
        keys_distinct(forecast_ids(upsert_forecast(entries, p))),
        forecast_ids(upsert_forecast(entries, p)) == if lookup_forecast(entries, p.project_id) is Some {
            forecast_ids(entries)
        } else {
            forecast_ids(entries).push(p.project_id)
        },
{
    let ids = forecast_ids(entries);
    lemma_key_position(ids, p.project_id);
    let i = key_position(ids, p.project_id);
    if i >= 0 {
        assert(forecast_ids(entries.update(i, p)) =~= ids);
    } else {
        assert(forecast_ids(entries.push(p)) =~= ids.push(p.project_id));
    }
}

/// Storing a forecast leaves what is read under any other id unchanged.
pub proof fn law_insert_keeps_others(entries: Seq<ForecastView>, p: ForecastView, id: Seq<char>)
    requires
        keys_distinct(forecast_ids(entries)),
        id != p.project_id,
    ensures
        lookup_forecast(upsert_forecast(entries, p), id) == lookup_forecast(entries, id),
{
    let ids = forecast_ids(entries);
    let e2 = upsert_forecast(entries, p);
    lemma_upsert_distinct(entries, p);
    lemma_key_position(ids, id);
    lemma_key_position(ids, p.project_id);
    lemma_key_position(forecast_ids(e2), id);
    let j = key_position(ids, id);
    if j >= 0 {
        assert(forecast_ids(e2)[j] == id);
        lemma_key_position_unique(forecast_ids(e2), id, j);
    } else {
        assert forall|k: int| 0 <= k < forecast_ids(e2).len() implies forecast_ids(e2)[k] != id by {
            if k < ids.len() {
                assert(forecast_ids(e2)[k] == ids[k]);
            }
        }
    }
}

/// Storing a forecast under an id already stored keeps the number of
/// forecasts; under a new id it adds one.
pub proof fn law_insert_count(entries: Seq<ForecastView>, p: ForecastView)
    requires
        keys_distinct(forecast_ids(entries)),
    ensures
        upsert_forecast(entries, p).len() == entries.len() + if lookup_forecast(
            entries,
            p.project_id,
        ) is Some {
            0int
        } else {
            1int
        },
{
    lemma_key_position(forecast_ids(entries), p.project_id);
}

/// Storing the same forecast twice is the same as storing it once.
pub proof fn law_insert_idempotent(entries: Seq<ForecastView>, p: ForecastView)
    requires
        keys_distinct(forecast_ids(entries)),
    ensures
        upsert_forecast(upsert_forecast(entries, p), p) == upsert_forecast(entries, p),
{
    let e2 = upsert_forecast(entries, p);
    lemma_upsert_distinct(entries, p);
    law_find_after_insert(entries, p);
    let k = key_position(forecast_ids(e2), p.project_id);
    lemma_key_position(forecast_ids(e2), p.project_id);
    assert(e2[k] == p);
    assert(e2.update(k, p) =~= e2);
}

/// The entries after storing the forecasts of `q` one after the other.
pub open spec fn upsert_forecasts(entries: Seq<ForecastView>, q: Seq<ForecastView>) -> Seq<
    ForecastView,
>
    decreases q.len(),
{
    if q.len() == 0 {
        entries
    } else {
        upsert_forecast(upsert_forecasts(entries, q.drop_last()), q.last())
    }
}

/// The last forecast of `q` with the given id, if any.
pub open spec fn last_forecast_with_id(q: Seq<ForecastView>, id: Seq<char>) -> Option<ForecastView>
    decreases q.len(),
{
    if q.len() == 0 {
        None
    } else if q.last().project_id == id {
        Some(q.last())
    } else {
        last_forecast_with_id(q.drop_last(), id)
    }
}

/// After storing a batch, each id reads the batch's last forecast with that
/// id, or what it read before when the batch has none.
pub proof fn lemma_upsert_forecasts_lookup(entries: Seq<ForecastView>, q: Seq<ForecastView>)
    requires
        keys_distinct(forecast_ids(entries)),
    ensures
        keys_distinct(forecast_ids(upsert_forecasts(entries, q))),
        forall|id: Seq<char>|
            #[trigger] lookup_forecast(upsert_forecasts(entries, q), id) == match last_forecast_with_id(
                q,
                id,
            ) {
                Some(p) => Some(p),
                None => lookup_forecast(entries, id),
            },
    decreases q.len(),
{
    if q.len() > 0 {
        lemma_upsert_forecasts_lookup(entries, q.drop_last());
        let x = upsert_forecasts(entries, q.drop_last());
        let p = q.last();
        lemma_upsert_distinct(x, p);
        law_find_after_insert(x, p);
        assert forall|id: Seq<char>|
            #[trigger] lookup_forecast(upsert_forecasts(entries, q), id) == match last_forecast_with_id(
                q,
                id,
            ) {
                Some(v) => Some(v),
                None => lookup_forecast(entries, id),
            } by {
            if id != p.project_id {
                law_insert_keeps_others(x, p, id);
            }
        }
    }
}

/// Every id of a batch has a last forecast in it.
proof fn lemma_last_forecast_exists(q: Seq<ForecastView>, i: int)
    requires
        0 <= i < q.len(),
    ensures
        last_forecast_with_id(q, q[i].project_id) is Some,
    decreases q.len(),
{
    if q.last().project_id != q[i].project_id {
        assert(q.drop_last()[i] == q[i]);
        lemma_last_forecast_exists(q.drop_last(), i);
    }
}

/// Storing a batch whose ids are all stored already only replaces entries
/// in place: the ids keep their order.
proof fn lemma_upsert_forecasts_in_place(entries: Seq<ForecastView>, q: Seq<ForecastView>)
    requires
        keys_distinct(forecast_ids(entries)),
        forall|i: int| 0 <= i < q.len() ==> lookup_forecast(entries, #[trigger] q[i].project_id) is Some,
    ensures
        forecast_ids(upsert_forecasts(entries, q)) == forecast_ids(entries),
    decreases q.len(),
{
    if q.len() > 0 {
        let q0 = q.drop_last();
        assert forall|i: int| 0 <= i < q0.len() implies lookup_forecast(
            entries,
            #[trigger] q0[i].project_id,
        ) is Some by {
            assert(q0[i] == q[i]);
        }
        lemma_upsert_forecasts_in_place(entries, q0);
        lemma_upsert_forecasts_lookup(entries, q0);
        let x = upsert_forecasts(entries, q0);
        let p = q.last();
        assert(lookup_forecast(entries, q[q.len() - 1].project_id) is Some);
        lemma_upsert_distinct(x, p);
    }
}

/// Two sequences of forecasts with the same ids, read the same under every
/// id, are equal.
proof fn lemma_same_lookups(a: Seq<ForecastView>, b: Seq<ForecastView>)
    requires
        forecast_ids(a) == forecast_ids(b),
        keys_distinct(forecast_ids(a)),
        forall|id: Seq<char>| lookup_forecast(a, id) == lookup_forecast(b, id),
    ensures
        a == b,
{
    assert(a.len() == forecast_ids(a).len());
    assert(b.len() == forecast_ids(b).len());
    assert forall|i: int| 0 <= i < a.len() implies a[i] == b[i] by {
        let id = forecast_ids(a)[i];
        lemma_key_position_unique(forecast_ids(a), id, i);
        assert(lookup_forecast(a, id) == lookup_forecast(b, id));
    }
    assert(a =~= b);
}

/// Storing the same batch of forecasts twice is the same as storing it
/// once.
pub proof fn law_upsert_forecasts_twice(entries: Seq<ForecastView>, q: Seq<ForecastView>)
    requires
        keys_distinct(forecast_ids(entries)),
    ensures
        upsert_forecasts(upsert_forecasts(entries, q), q) == upsert_forecasts(entries, q),
{
    let s = upsert_forecasts(entries, q);
    lemma_upsert_forecasts_lookup(entries, q);
    assert forall|i: int| 0 <= i < q.len() implies lookup_forecast(s, #[trigger] q[i].project_id)
        is Some by {
        lemma_last_forecast_exists(q, i);
    }
    lemma_upsert_forecasts_in_place(s, q);
    lemma_upsert_forecasts_lookup(s, q);
    let r = upsert_forecasts(s, q);
    assert forall|id: Seq<char>| lookup_forecast(r, id) == lookup_forecast(s, id) by {
        assert(lookup_forecast(r, id) == lookup_forecast(r, id));
        assert(lookup_forecast(s, id) == lookup_forecast(s, id));
    }
    lemma_same_lookups(r, s);
}

/// Operations of a store of forecasts. Its contents are a sequence of
/// forecasts with distinct project ids, in the order in which `find_all` lists them.
pub trait ForecastRepositoryTrait {
    /// The stored forecasts, in listing order.
    spec fn forecast_entries(&self) -> Seq<ForecastView>;

    /// Stores `forecast`, replacing the forecast with the same id if there is one.
    fn insert(&mut self, forecast: Forecast)
        requires
            keys_distinct(forecast_ids(old(self).forecast_entries())),
        ensures
            final(self).forecast_entries() == upsert_forecast(old(self).forecast_entries(), forecast@),
            keys_distinct(forecast_ids(final(self).forecast_entries())),
    ;

    /// All stored forecasts.
    fn find_all(&self) -> (r: Vec<Forecast>)
        ensures
            forecasts_view(r@) == self.forecast_entries(),
    ;

    /// The stored forecast with the given id, if any.
    fn find_by_id(&self, project_id: &str) -> (r: Option<Forecast>)
        ensures
            match r {
                Some(p) => lookup_forecast(self.forecast_entries(), project_id@) == Some(p@),
                None => lookup_forecast(self.forecast_entries(), project_id@) is None,
            },
    ;

}

/// An in-memory store of forecasts.
pub struct ForecastRepository {
    data: Vec<Forecast>,
}

impl ForecastRepository {
    /// An empty store.
    pub fn new() -> (r: Self)
        ensures
            r.forecast_entries() == Seq::<ForecastView>::empty(),
    {
        let r = ForecastRepository { data: Vec::new() };
        assert(forecasts_view(r.data@) =~= Seq::<ForecastView>::empty());
        r
    }

    /// The index of the stored forecast with the given id.
    fn position_of(&self, project_id: &str) -> (r: Option<usize>)
        ensures
            match r {
                Some(k) => key_position(forecast_ids(self.forecast_entries()), project_id@)
                    == k as int,
                None => key_position(forecast_ids(self.forecast_entries()), project_id@) == -1,
            },
            r matches Some(k) ==> k < self.data@.len(),
    {
        let ghost keys = forecast_ids(self.forecast_entries());
        let mut i: usize = 0;
        while i < self.data.len()
            invariant
                i <= self.data@.len(),
                keys == forecast_ids(self.forecast_entries()),
                keys.len() == self.data@.len(),
                key_position(keys, project_id@) == key_position_from(keys, project_id@, i as int),
            decreases self.data@.len() - i,
        {
            assert(keys[i as int] == self.data@[i as int].project_id@);
            if str_eq(self.data[i].project_id.as_str(), project_id) {
                return Some(i);
            }
            i = i + 1;
        }
        None
    }
}

impl ForecastRepositoryTrait for ForecastRepository {
    closed spec fn forecast_entries(&self) -> Seq<ForecastView> {
        forecasts_view(self.data@)
    }

    fn insert(&mut self, forecast: Forecast) {
        let ghost old_entries = self.forecast_entries();
        proof {
            lemma_key_position(forecast_ids(old_entries), forecast@.project_id);
        }
        match self.position_of(forecast.project_id.as_str()) {
            Some(k) => {
                self.data.set(k, forecast);
                assert(self.forecast_entries() =~= old_entries.update(k as int, forecast@));
                assert(forecast_ids(self.forecast_entries()) =~= forecast_ids(old_entries));
            },
            None => {
                self.data.push(forecast);
                assert(self.forecast_entries() =~= old_entries.push(forecast@));
                assert(forecast_ids(self.forecast_entries()) =~= forecast_ids(old_entries).push(
                    forecast@.project_id,
                ));
            },
        }
    }

    fn find_all(&self) -> (r: Vec<Forecast>) {
        let mut r: Vec<Forecast> = Vec::new();
        let mut i: usize = 0;
        while i < self.data.len()
            invariant
                i <= self.data@.len(),
                forecasts_view(r@) == forecasts_view(self.data@).take(i as int),
            decreases self.data@.len() - i,
        {
            r.push(self.data[i].clone());
            assert(forecasts_view(self.data@).take(i + 1) =~= forecasts_view(self.data@).take(
                i as int,
            ).push(self.data@[i as int]@));
            assert(forecasts_view(r@) =~= forecasts_view(self.data@).take(i + 1));
            i = i + 1;
        }
        assert(forecasts_view(self.data@).take(self.data@.len() as int) =~= forecasts_view(
            self.data@,
        ));
        r
    }

    fn find_by_id(&self, project_id: &str) -> (r: Option<Forecast>) {
        match self.position_of(project_id) {
            Some(k) => Some(self.data[k].clone()),
            None => None,
        }
    }
}

} // verus!
