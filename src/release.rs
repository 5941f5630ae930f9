//! Talking to the hosting service: the latest-release request for a tool
//! and what a response status means.
use vstd::prelude::*;

use crate::error::ToolError;

verus! {

/// The client identifier sent with every request, also the name under
/// which credentials are stored.
pub const SERVICE_NAME: &'static str = "tooldl";

/// The address of the latest release of `owner/repo`.
pub open spec fn latest_url(owner: Seq<char>, repo: Seq<char>) -> Seq<char> {
    "https://api.github.com/repos/"@ + owner + "/"@ + repo + "/releases/latest"@
}

/// The value of the `Authorization` header for `token`.
pub open spec fn auth_value(token: Seq<char>) -> Seq<char> {
    "token "@ + token
}

/// Builds the address of the latest release of `owner/repo`.
pub fn latest_release_url(owner: &str, repo: &str) -> (r: String)
    ensures
        r@ == latest_url(owner@, repo@),
{
    String::from_str("https://api.github.com/repos/").concat(owner).concat("/").concat(repo).concat(
        "/releases/latest",
    )
}

/// Builds the `Authorization` header value for `token`.
pub fn authorization(token: &str) -> (r: String)
    ensures
        r@ == auth_value(token@),
{
    String::from_str("token ").concat(token)
}

/// What a response status says about the request: `None` on success,
/// else the failure it stands for.
pub fn status_error(status: u16) -> (r: Option<ToolError>)
    ensures
        200 <= status < 300 ==> r is None,
        (status == 401 || status == 403) ==> r == Some(ToolError::AuthenticationError),
        status == 404 ==> r == Some(ToolError::NotFound),
        !(200 <= status < 300 || status == 401 || status == 403 || status == 404) ==> (r matches Some(
            ToolError::TransportError(_),
        )),
{
    if 200 <= status && status < 300 {
        None
    } else if status == 401 || status == 403 {
        Some(ToolError::AuthenticationError)
    } else if status == 404 {
        Some(ToolError::NotFound)
    } else {
        Some(ToolError::TransportError(String::from_str("unexpected response status")))
    }
}

} // verus!
