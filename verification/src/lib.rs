//! Data handling for an intersectional-experience survey platform: access codes,
//! language selection, phrase normalisation, experience aggregation and the
//! network graphs shown to participants.

use vstd::prelude::*;

pub mod accounts;
pub mod aggregate;
pub mod codes;
pub mod community;
pub mod emails;
pub mod experience;
pub mod forms;
pub mod graph;
pub mod lang;
pub mod links;
pub mod numbers;
pub mod order;
pub mod seed;
pub mod stats;
pub mod survey;
pub mod text;
pub mod translate;

verus! {

/// Application-wide state handed to background jobs.
pub struct AppState {
    pub app_name: String,
}

impl AppState {
    /// Creates the state for the application called `app_name`.
    pub fn new(app_name: &str) -> (state: AppState)
        ensures
            state.app_name@ == app_name@,
    {
        AppState { app_name: app_name.to_string() }
    }
}

} // verus!
