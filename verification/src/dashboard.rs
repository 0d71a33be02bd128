//! Dashboards: a named collection of tiles with a layout, an owner, and the
//! API token that authorizes writes to its tiles.

use vstd::prelude::*;

verus! {

/// Relies on uuid's `Uuid::new_v4` and its `Display` impl: a fresh random
/// version-4 UUID, written in the hyphenated form, which is 36 characters
/// long.
#[verifier::external_body]
fn new_token() -> (r: String)
    ensures
        r@.len() == 36,
{
    uuid::Uuid::new_v4().to_string()
}

#[derive(Debug)]
pub struct Dashboard {
    pub name: String,
    pub owner_email: String,
    pub layout: String,
    pub api_token: Option<String>,
}

impl Dashboard {
    /// Whether an API token has been assigned.
    pub open spec fn has_api_token(self) -> bool {
        self.api_token is Some
    }

    /// The assigned API token.
    pub open spec fn api_token_view(self) -> Seq<char> {
        match self.api_token {
            Some(t) => t@,
            None => Seq::empty(),
        }
    }

    /// Creates a dashboard and assigns it a fresh API token.
    pub fn new(name: String, owner_email: String, layout: String) -> (d: Dashboard)
        ensures
            d.name == name,
            d.owner_email == owner_email,
            d.layout == layout,
            d.has_api_token(),
            d.api_token_view().len() == 36,
    {
        let mut d = Dashboard { name, owner_email, layout, api_token: None };
        d.assign_api_token();
        d
    }

    /// Replaces the API token with a freshly generated one.
    pub fn assign_api_token(&mut self)
        ensures
            final(self).name == old(self).name,
            final(self).owner_email == old(self).owner_email,
            final(self).layout == old(self).layout,
            final(self).has_api_token(),
            final(self).api_token_view().len() == 36,
    {
        self.api_token = Some(new_token());
    }

    /// The API token, when one has been assigned.
    pub fn get_api_token(&self) -> (r: Option<&String>)
        ensures
            r is Some <==> self.has_api_token(),
            r matches Some(t) ==> t@ == self.api_token_view(),
    {
        self.api_token.as_ref()
    }
}

impl Clone for Dashboard {
    fn clone(&self) -> (r: Self)
        ensures
            r == *self,
    {
        let api_token = match &self.api_token {
            None => None,
            Some(t) => Some(t.clone()),
        };
        Dashboard {
            name: self.name.clone(),
            owner_email: self.owner_email.clone(),
            layout: self.layout.clone(),
            api_token,
        }
    }
}

} // verus!
