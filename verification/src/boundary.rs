//! The edge towards the transport: which requests are taken up, and what
//! response each outcome is answered with. Responses are plain data; sending
//! them is the caller's business.

use vstd::prelude::*;
use vstd::string::*;
use crate::filename::FilenameFieldLayout;
use crate::resolve::{resolution, resolve, Outcome, OutcomeView, Request};
use crate::text::views;

verus! {

/// The parameters of an update request as they arrive: each may be absent.
#[derive(Debug, PartialEq, Eq)]
pub struct UpdateRequest {
    /// Identifier of the image.
    pub image: Option<String>,
    /// Identifier of the device type.
    pub device: Option<String>,
    /// The version that the client has installed.
    pub current_version: Option<String>,
}

impl UpdateRequest {
    /// All three parameters are there.
    pub open spec fn is_complete(&self) -> bool {
        self.image is Some && self.device is Some && self.current_version is Some
    }
}

/// The status of a response.
#[derive(Clone, Copy, Debug, PartialEq, Eq, Structural)]
pub enum Status {
    Found,
    BadRequest,
    NotFound,
    InternalServerError,
}

impl Status {
    /// The status as a number.
    pub open spec fn number(&self) -> u16 {
        match self {
            Status::Found => 302u16,
            Status::BadRequest => 400u16,
            Status::NotFound => 404u16,
            Status::InternalServerError => 500u16,
        }
    }

    /// The status as a number.
    pub fn code(&self) -> (n: u16)
        ensures
            n == self.number(),
    {
        match self {
            Status::Found => 302u16,
            Status::BadRequest => 400u16,
            Status::NotFound => 404u16,
            Status::InternalServerError => 500u16,
        }
    }
}

/// A response: its status and at most one header, as name and value.
#[derive(Debug, PartialEq, Eq)]
pub struct Response {
    pub status: Status,
    pub header: Option<(String, String)>,
}

/// A response as plain values.
pub struct ResponseView {
    pub status: Status,
    pub header: Option<(Seq<char>, Seq<char>)>,
}

impl View for Response {
    type V = ResponseView;

    open spec fn view(&self) -> ResponseView {
        ResponseView {
            status: self.status,
            header: match self.header {
                Some((name, value)) => Some((name@, value@)),
                None => None,
            },
        }
    }
}

/// Why the catalog could not be listed.
#[derive(Debug, PartialEq, Eq)]
pub enum CatalogError {
    /// The artifact directory is missing or cannot be read.
    Unreachable,
}

/// The response without a header.
pub open spec fn bare(status: Status) -> ResponseView {
    ResponseView { status, header: None }
}

/// The response that an outcome is answered with: a redirect to the
/// artifact under `/images/`, "not found", or a server error that says what
/// is wrong with the catalog.
pub open spec fn response_to(outcome: OutcomeView) -> ResponseView {
    match outcome {
        OutcomeView::UpdateAvailable(name) => ResponseView {
            status: Status::Found,
            header: Some(("Location"@, "/images/"@ + name)),
        },
        OutcomeView::NoUpdateAvailable => bare(Status::NotFound),
        OutcomeView::AmbiguousCatalog(_) => ResponseView {
            status: Status::InternalServerError,
            header: Some(("X-Error"@, "More than one matching update image."@)),
        },
    }
}

/// Takes up a request that has all three parameters, and turns away any
/// other with "bad request": for such a request nothing is resolved.
pub fn accept(request: &UpdateRequest) -> (r: Result<Request, Response>)
    ensures
        match r {
            Ok(q) => {
                &&& request.image == Some(q.image)
                &&& request.device == Some(q.device)
                &&& request.current_version == Some(q.current_version)
            },
            Err(response) => !request.is_complete() && response@ == bare(Status::BadRequest),
        },
{
    match (&request.image, &request.device, &request.current_version) {
        (Some(image), Some(device), Some(current_version)) => Ok(
            Request {
                image: image.clone(),
                device: device.clone(),
                current_version: current_version.clone(),
            },
        ),
        _ => Err(Response { status: Status::BadRequest, header: None }),
    }
}

/// The response to an outcome.
pub fn respond(outcome: &Outcome) -> (r: Response)
    ensures
        r@ == response_to(outcome@),
{
    match outcome {
        Outcome::UpdateAvailable(name) => Response {
            status: Status::Found,
            header: Some(
                (String::from_str("Location"), String::from_str("/images/").concat(name.as_str())),
            ),
        },
        Outcome::NoUpdateAvailable => Response { status: Status::NotFound, header: None },
        Outcome::AmbiguousCatalog(_) => Response {
            status: Status::InternalServerError,
            header: Some(
                (
                    String::from_str("X-Error"),
                    String::from_str("More than one matching update image."),
                ),
            ),
        },
    }
}

/// Answers a request that was taken up, once the catalog was listed or
/// found unreachable.
pub fn answer(
    request: &Request,
    listing: &Result<Vec<String>, CatalogError>,
    layout: &FilenameFieldLayout,
) -> (r: Response)
    ensures
        match listing {
            Ok(names) => r@ == response_to(resolution(views(names@), *layout, request@)),
            Err(_) => r@ == bare(Status::InternalServerError),
        },
{
    match listing {
        Ok(names) => {
            let outcome: Outcome = resolve(names, layout, request);
            respond(&outcome)
        },
        Err(_) => Response { status: Status::InternalServerError, header: None },
    }
}

} // verus!
