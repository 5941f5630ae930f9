//! The command line and the choice of credential.
use vstd::prelude::*;

use crate::error::ToolError;

verus! {

/// A utility to download and update tools.
#[derive(Debug, Clone, PartialEq, Eq)]
pub struct Args {
    /// The user whose stored credential is used for requests.
    pub user: String,
    /// A credential to store for the user and use now.
    pub token: Option<String>,
    /// The directory to work in.
    pub path: Option<String>,
}

impl Args {
    /// The directory to work in: the one given, else `current_dir`.
    pub fn path(&self, current_dir: &str) -> (r: String)
        ensures
            r@ == match self.path {
                Some(p) => p@,
                None => current_dir@,
            },
    {
        match &self.path {
            Some(p) => p.clone(),
            None => String::from_str(current_dir),
        }
    }
}

/// What to do with the credential store before the run.
#[derive(Debug, Clone, PartialEq, Eq)]
pub enum CredentialStep {
    /// Store this credential for the user, then use it.
    Save(String),
    /// Look the user's credential up.
    Load,
}

/// What the credential store answered to a lookup.
#[derive(Debug, Clone, PartialEq, Eq)]
pub enum StoredCredential {
    Found(String),
    NoEntry,
    Failed(String),
}

/// A credential given on the command line is stored and used; otherwise
/// the stored one is looked up.
pub fn credential_step(args: &Args) -> (r: CredentialStep)
    ensures
        args.token is Some ==> (r matches CredentialStep::Save(t) && t@ == args.token->0@),
        args.token is None ==> r is Load,
{
    match &args.token {
        Some(t) => CredentialStep::Save(t.clone()),
        None => CredentialStep::Load,
    }
}

/// The credential to use after a lookup: a missing entry is
/// `CredentialMissing`, any other failure `CredentialStoreError`.
pub fn credential_from_store(stored: StoredCredential) -> (r: Result<String, ToolError>)
    ensures
        match stored {
            StoredCredential::Found(t) => r is Ok && r->Ok_0@ == t@,
            StoredCredential::NoEntry => r == Err::<String, ToolError>(ToolError::CredentialMissing),
            StoredCredential::Failed(m) => r matches Err(ToolError::CredentialStoreError(e)) && e@ == m@,
        },
{
    match stored {
        StoredCredential::Found(t) => Ok(t),
        StoredCredential::NoEntry => Err(ToolError::CredentialMissing),
        StoredCredential::Failed(m) => Err(ToolError::CredentialStoreError(m)),
    }
}

} // verus!
