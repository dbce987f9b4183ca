//! Identity and credential records that every component reads and none
//! changes.

use vstd::prelude::*;

verus! {

/// The project a run works on, as its manifest names it.
#[derive(Debug, Clone)]
pub struct Project {
    pub vendor: String,
    pub name: String,
    pub version: String,
}

/// The signed-in account together with the workspace in use.
#[derive(Debug, Clone)]
pub struct Vtex {
    pub account: String,
    pub login: String,
    pub token: String,
    pub workspace: String,
    pub last_used_workspace: String,
}

/// The signed-in account alone.
#[derive(Debug, Clone)]
pub struct Session {
    pub account: String,
    pub login: String,
    pub token: String,
}

/// The workspace in use and the one used before it.
#[derive(Debug, Clone)]
pub struct Environment {
    pub current_workspace: String,
    pub last_workspace: String,
}

impl Vtex {
    /// Joins a session and a workspace record into one credential record.
    pub fn from_parts(session: Session, environment: Environment) -> (r: Vtex)
        ensures
            r.account == session.account,
            r.login == session.login,
            r.token == session.token,
            r.workspace == environment.current_workspace,
            r.last_used_workspace == environment.last_workspace,
    {
        Vtex {
            account: session.account,
            login: session.login,
            token: session.token,
            workspace: environment.current_workspace,
            last_used_workspace: environment.last_workspace,
        }
    }

    /// A credential record is usable when account, workspace and token are
    /// all present.
    pub open spec fn complete(&self) -> bool {
        self.account@.len() > 0 && self.workspace@.len() > 0 && self.token@.len() > 0
    }

    /// Whether account, workspace and token are all present.
    pub fn is_complete(&self) -> (r: bool)
        ensures
            r == self.complete(),
    {
        !self.account.as_str().is_empty() && !self.workspace.as_str().is_empty()
            && !self.token.as_str().is_empty()
    }
}

} // verus!
