//! The page of the user's profile.

use crate::handlers::prefs::listed_rows;
use vstd::prelude::*;

verus! {

/// What the list is asked for.
pub struct ListQuery {
    pub limit: Option<u32>,
}

/// How many entries are listed: a hundred, where nothing is said.
pub fn listed_entries(query: &ListQuery) -> (r: u32)
    ensures
        r == match query.limit {
            Some(n) => n,
            None => 100,
        },
{
    listed_rows(query.limit)
}

/// The form that forgets an entry of the profile.
pub struct ForgetForm {
    pub id: String,
}

} // verus!
