//! The store of both projects and forecasts that the services read.
use vstd::prelude::*;
use crate::db::repositories::forecast_repository::{
    forecast_ids, ForecastRepository, ForecastRepositoryTrait,
};
use crate::db::repositories::keyed::keys_distinct;
use crate::db::repositories::project_repository::{
    project_ids, ProjectRepository, ProjectRepositoryTrait,
};
use crate::models::forecast::{Forecast, ForecastView};
use crate::models::project::{Project, ProjectView};

verus! {

/// Projects and forecasts held in memory.
pub struct InMemoryRepository {
    project_repository: ProjectRepository,
    forecast_repository: ForecastRepository,
}

impl InMemoryRepository {
    /// An empty repository.
    pub fn new() -> (r: Self)
        ensures
            r.project_entries() == Seq::<ProjectView>::empty(),
            r.forecast_entries() == Seq::<ForecastView>::empty(),
            r.wf(),
    {
        InMemoryRepository {
            project_repository: ProjectRepository::new(),
            forecast_repository: ForecastRepository::new(),
        }
    }

    /// The stored projects, in listing order.
    pub closed spec fn projects(&self) -> Seq<ProjectView> {
        self.project_repository.project_entries()
    }

    /// The stored forecasts, in listing order.
    pub closed spec fn forecasts(&self) -> Seq<ForecastView> {
        self.forecast_repository.forecast_entries()
    }

    /// Neither projects nor forecasts hold a project id twice.
    pub open spec fn wf(&self) -> bool {
        &&& keys_distinct(project_ids(self.project_entries()))
        &&& keys_distinct(forecast_ids(self.forecast_entries()))
    }
}

impl ProjectRepositoryTrait for InMemoryRepository {
    open spec fn project_entries(&self) -> Seq<ProjectView> {
        self.projects()
    }

    fn insert(&mut self, project: Project)
        ensures
            final(self).forecasts() == old(self).forecasts(),
    {
        self.project_repository.insert(project);
    }

    fn find_all(&self) -> (r: Vec<Project>) {
        self.project_repository.find_all()
    }

    fn find_by_id(&self, project_id: &str) -> (r: Option<Project>) {
        self.project_repository.find_by_id(project_id)
    }

    fn delete_by_id(&mut self, project_id: &str) -> (r: bool)
        ensures
            final(self).forecasts() == old(self).forecasts(),
    {
        self.project_repository.delete_by_id(project_id)
    }
}

impl ForecastRepositoryTrait for InMemoryRepository {
    open spec fn forecast_entries(&self) -> Seq<ForecastView> {
        self.forecasts()
    }

    fn insert(&mut self, forecast: Forecast)
        ensures
            final(self).projects() == old(self).projects(),
    {
        self.forecast_repository.insert(forecast);
    }

    fn find_all(&self) -> (r: Vec<Forecast>) {
        self.forecast_repository.find_all()
    }

    fn find_by_id(&self, project_id: &str) -> (r: Option<Forecast>) {
        self.forecast_repository.find_by_id(project_id)
    }
}

} // verus!
