//! The shared application state: the response store plus the users who opted
//! out of responses.

use vstd::prelude::*;
use crate::response::{lookup_post, Response, ResponseDatabase};

verus! {

/// Everything the service keeps between queries.
#[derive(Debug)]
pub struct Data {
    pub response_database: ResponseDatabase,
    pub disabled_users: Vec<String>,
}

impl Default for Data {
    /// An empty state with a well-formed, empty store.
    fn default() -> (r: Data)
        ensures
            r.response_database.wf(),
            r.response_database.responses@.len() == 0,
            r.response_database.heroes@.len() == 0,
            r.response_database.icons@.len() == 0,
            r.disabled_users@.len() == 0,
    {
        Data { response_database: ResponseDatabase::new(), disabled_users: Vec::new() }
    }
}

impl Data {
    /// Look up one stored response for the canonical text, optionally limited
    /// to one hero; chosen at random among the matches.
    pub fn get_response(&self, processed_text: &str, hero_id: Option<i32>) -> (r: Option<Response>)
        ensures
            lookup_post(self.response_database, processed_text@, hero_id, r),
    {
        self.response_database.get_response(processed_text, hero_id)
    }
}

} // verus!
