//! Where the billing service is reached.

use vstd::prelude::*;

verus! {

/// The parts of an API client that choose the billing endpoint.
pub struct Client {
    pub base_url: String,
    /// The billing service's own base URL, when one is configured.
    pub billing_url_override: Option<String>,
}

impl Client {
    pub fn new(base_url: String, billing_url_override: Option<String>) -> (r: Self)
        ensures
            r.base_url == base_url,
            r.billing_url_override == billing_url_override,
    {
        Client { base_url, billing_url_override }
    }

    /// The configured billing URL, or else the client's base URL.
    pub fn base_billing_url(&self) -> (r: &str)
        ensures
            r@ == match self.billing_url_override {
                Some(u) => u@,
                None => self.base_url@,
            },
    {
        match &self.billing_url_override {
            Some(u) => u.as_str(),
            None => self.base_url.as_str(),
        }
    }
}

} // verus!
