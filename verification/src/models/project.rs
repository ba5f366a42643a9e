//! A project as read from the projects CSV file.
use vstd::prelude::*;

verus! {

/// A project of the portfolio, keyed by `project_id`.
#[derive(Debug)]
pub struct Project {
    pub project_id: String,
    pub sales_org: String,
    pub end_customer_name: String,
    pub project_name: String,
    pub project_manager: String,
    /// The account executive ("Other Stakeholder" column), if any.
    pub account_executive: Option<String>,
    pub start_date: String,
    pub end_date: String,
    pub on_hold: bool,
    pub on_hold_comment: Option<String>,
}

/// The mathematical value of a `Project`: every text field as its characters.
pub struct ProjectView {
    pub project_id: Seq<char>,
    pub sales_org: Seq<char>,
    pub end_customer_name: Seq<char>,
    pub project_name: Seq<char>,
    pub project_manager: Seq<char>,
    pub account_executive: Option<Seq<char>>,
    pub start_date: Seq<char>,
    pub end_date: Seq<char>,
    pub on_hold: bool,
    pub on_hold_comment: Option<Seq<char>>,
}

/// The characters of an optional string.
pub open spec fn opt_view(o: Option<String>) -> Option<Seq<char>> {
    match o {
        Some(s) => Some(s@),
        None => None,
    }
}

impl View for Project {
    type V = ProjectView;

    open spec fn view(&self) -> ProjectView {
        ProjectView {
            project_id: self.project_id@,
            sales_org: self.sales_org@,
            end_customer_name: self.end_customer_name@,
            project_name: self.project_name@,
            project_manager: self.project_manager@,
            account_executive: opt_view(self.account_executive),
            start_date: self.start_date@,
            end_date: self.end_date@,
            on_hold: self.on_hold,
            on_hold_comment: opt_view(self.on_hold_comment),
        }
    }
}

/// The views of a sequence of projects.
pub open spec fn projects_view(s: Seq<Project>) -> Seq<ProjectView> {
    s.map_values(|p: Project| p@)
}

/// A copy of an optional string.
pub fn clone_opt_string(o: &Option<String>) -> (r: Option<String>)
    ensures
        opt_view(r) == opt_view(*o),
{
    match o {
        Some(s) => Some(s.clone()),
        None => None,
    }
}

impl Clone for Project {
    fn clone(&self) -> (r: Self)
        ensures
            r@ == self@,
    {
        Project {
            project_id: self.project_id.clone(),
            sales_org: self.sales_org.clone(),
            end_customer_name: self.end_customer_name.clone(),
            project_name: self.project_name.clone(),
            project_manager: self.project_manager.clone(),
            account_executive: clone_opt_string(&self.account_executive),
            start_date: self.start_date.clone(),
            end_date: self.end_date.clone(),
            on_hold: self.on_hold,
            on_hold_comment: clone_opt_string(&self.on_hold_comment),
        }
    }
}

} // verus!
