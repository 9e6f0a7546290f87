//! The manager's view of one instance's status: where to fetch it, or why
//! it cannot be fetched.

use vstd::prelude::*;

use crate::json::Json;
use crate::plane::agent::opt_view;
use crate::plane::types::InstanceDecl;
use crate::text::{concat3, dup_opt};

verus! {

/// How a status request for an instance is answered.
#[derive(Debug)]
pub enum StatusProbe {
    /// No instance has that id (404, "unknown instance").
    Unknown,
    /// The instance declares no admin address (503, "instance has no admin address").
    NoAdmin,
    /// Fetch the status from the instance's admin endpoint, with its admin
    /// token as bearer credentials when it has one.
    Fetch { url: String, token: Option<String> },
}

/// Decide how to answer a status request, given the instance's declaration.
pub fn status_probe(decl: Option<&InstanceDecl>) -> (r: StatusProbe)
    ensures
        match decl {
            None => r is Unknown,
            Some(d) => match d.spec.admin {
                None => r is NoAdmin,
                Some(admin) => r matches StatusProbe::Fetch { url, token }
                    && url@ == "http://"@ + admin@ + "/admin/status"@
                    && opt_view(token) == opt_view(d.spec.admin_token),
            },
        },
{
    match decl {
        None => StatusProbe::Unknown,
        Some(d) => match &d.spec.admin {
            None => StatusProbe::NoAdmin,
            Some(admin) => StatusProbe::Fetch {
                url: concat3("http://", admin.as_str(), "/admin/status"),
                token: dup_opt(&d.spec.admin_token),
            },
        },
    }
}

impl StatusProbe {
    /// The status code and text of a refused request; `None` for a fetch.
    pub fn refusal(&self) -> (r: Option<(u16, &'static str)>)
        ensures
            match self {
                StatusProbe::Unknown => r matches Some((code, text)) && code == 404 && text@ == "unknown instance"@,
                StatusProbe::NoAdmin => r matches Some((code, text)) && code == 503 && text@
                    == "instance has no admin address"@,
                StatusProbe::Fetch { .. } => r is None,
            },
    {
        match self {
            StatusProbe::Unknown => Some((404, "unknown instance")),
            StatusProbe::NoAdmin => Some((503, "instance has no admin address")),
            StatusProbe::Fetch { .. } => None,
        }
    }
}

/// The body relayed from an instance's status reply: the parsed JSON when
/// the text parsed, else the text itself as a JSON string.
pub fn status_reply(parsed: Option<Json>, text: String) -> (r: Json)
    ensures
        match parsed {
            Some(v) => r == v,
            None => r == Json::Str(text),
        },
{
    match parsed {
        Some(v) => v,
        None => Json::Str(text),
    }
}

} // verus!
