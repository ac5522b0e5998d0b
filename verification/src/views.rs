//! What the pages show.
use vstd::prelude::*;

use vstd::string::StringExecFns;

use crate::models::AssetView;

verus! {

/// The login page, with the error shown above the form, if any.
#[derive(Debug)]
pub struct LoginTemplate {
    pub error: String,
    pub has_error: bool,
}

/// The registration page, with the error shown above the form, if any.
#[derive(Debug)]
pub struct RegisterTemplate {
    pub error: String,
    pub has_error: bool,
}

/// The dashboard of a user, with the error of the last action, if any.
#[derive(Debug)]
pub struct AssetsTemplate {
    pub user_name: String,
    pub assets: Vec<AssetView>,
    pub error: String,
    pub has_error: bool,
}

impl LoginTemplate {
    /// The login page with `error` (empty for none).
    pub fn new(error: String) -> (t: LoginTemplate)
        ensures
            t.error == error,
            t.has_error == (error@.len() > 0),
    {
        let has_error = !error.as_str().is_empty();
        LoginTemplate { error, has_error }
    }

    /// The login page after a failed login.
    pub fn invalid_credentials() -> (t: LoginTemplate)
        ensures
            t.error@ == "usuario ou senha invalidos"@,
            t.has_error,
    {
        proof {
            reveal_strlit("usuario ou senha invalidos");
        }
        LoginTemplate::new(String::from_str("usuario ou senha invalidos"))
    }
}

impl RegisterTemplate {
    /// The registration page with `error` (empty for none).
    pub fn new(error: String) -> (t: RegisterTemplate)
        ensures
            t.error == error,
            t.has_error == (error@.len() > 0),
    {
        let has_error = !error.as_str().is_empty();
        RegisterTemplate { error, has_error }
    }
}

impl AssetsTemplate {
    /// The dashboard of `user_name` with `assets` and, when there is one, the
    /// error of the last action.
    pub fn new(user_name: String, assets: Vec<AssetView>, error: Option<String>) -> (t: AssetsTemplate)
        ensures
            t.user_name == user_name,
            t.assets == assets,
            t.error@ == (match error {
                Some(e) => e@,
                None => Seq::<char>::empty(),
            }),
            t.has_error == (t.error@.len() > 0),
    {
        let error = match error {
            Some(e) => e,
            None => String::new(),
        };
        let has_error = !error.as_str().is_empty();
        AssetsTemplate { user_name, assets, error, has_error }
    }
}

} // verus!
