//! Queued builds: their state and where they are addressed.

use vstd::prelude::*;

use crate::client::AzdoClient;
use crate::text::{dec, push_decimal, push_str};

verus! {

/// A build as returned by the queue and get endpoints (the fields used).
#[derive(Debug)]
pub struct Build {
    pub id: u64,
    pub status: Option<String>,
    pub result: Option<String>,
    pub number: Option<String>,
}

impl Build {
    /// A build is terminal once the server reports `status == "completed"`.
    pub fn is_complete(&self) -> (r: bool)
        ensures
            r == (self.status matches Some(s) && s@ == "completed"@),
    {
        match &self.status {
            Some(s) => {
                let done = String::from_str("completed");
                s.eq(&done)
            },
            None => false,
        }
    }
}

/// `{project}/_apis/build/builds{suffix}?api-version={v}`.
pub fn builds_url(client: &AzdoClient, suffix: &str) -> (r: String)
    ensures
        r@ == client.project_url_text("/_apis/build/builds"@ + suffix@) + "?api-version="@
            + client.api_version_text(),
{
    let mut path = String::from_str("/_apis/build/builds");
    push_str(&mut path, suffix);
    client.project_api_url(path.as_str())
}

/// The URL of build `id`'s results page.
pub fn build_results_url(client: &AzdoClient, id: u64) -> (r: String)
    ensures
        r@ == client.project_url_text("/_build/results?buildId="@ + dec(id as nat)),
{
    let mut path = String::from_str("/_build/results?buildId=");
    push_decimal(&mut path, id);
    client.project_url(path.as_str())
}

} // verus!
