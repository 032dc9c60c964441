//! What a caller is told of a search that runs in slices.
use vstd::prelude::*;
use crate::decimal::{decimal, decimal_text};

verus! {

/// How a search stands. `P` is the host's form of a path.
pub struct StatusResponse<P> {
    pub status: String,
    pub job_id: Option<u64>,
    pub path: Option<P>,
    pub error: Option<String>,
}

/// The same over plain texts.
pub struct ResponseView<P> {
    pub status: Seq<char>,
    pub job_id: Option<u64>,
    pub path: Option<P>,
    pub error: Option<Seq<char>>,
}

/// The value of one field of a response.
pub enum Field<P> {
    Text(String),
    Path(P),
}

/// The same over plain texts.
pub enum FieldView<P> {
    Text(Seq<char>),
    Path(P),
}

impl<P> View for StatusResponse<P> {
    type V = ResponseView<P>;

    open spec fn view(&self) -> ResponseView<P> {
        ResponseView {
            status: self.status@,
            job_id: self.job_id,
            path: self.path,
            error: match self.error {
                Some(text) => Some(text@),
                None => None,
            },
        }
    }
}

impl<P> View for Field<P> {
    type V = FieldView<P>;

    open spec fn view(&self) -> FieldView<P> {
        match *self {
            Field::Text(text) => FieldView::Text(text@),
            Field::Path(path) => FieldView::Path(path),
        }
    }
}

/// A named field, over plain texts.
pub open spec fn named_field<P>(entry: (String, Field<P>)) -> (Seq<char>, FieldView<P>) {
    (entry.0@, entry.1@)
}

/// The fields that a caller gets to see: the status, then the job id in decimal, the path and
/// the error, each where there is one.
pub open spec fn response_fields<P>(r: ResponseView<P>) -> Seq<(Seq<char>, FieldView<P>)> {
    seq![("status"@, FieldView::Text(r.status))] + (match r.job_id {
        Some(id) => seq![("job_id"@, FieldView::Text(decimal(id as nat)))],
        None => Seq::empty(),
    }) + (match r.path {
        Some(path) => seq![("path"@, FieldView::Path(path))],
        None => Seq::empty(),
    }) + (match r.error {
        Some(text) => seq![("error"@, FieldView::Text(text))],
        None => Seq::empty(),
    })
}

/// The fields of a response, in order.
pub fn status_response<P>(response: StatusResponse<P>) -> (fields: Vec<(String, Field<P>)>)
    ensures
        fields@.map_values(|entry: (String, Field<P>)| named_field(entry)) == response_fields(
            response@,
        ),
{
    let ghost named = |entry: (String, Field<P>)| named_field(entry);
    let ghost view = response@;
    let mut fields: Vec<(String, Field<P>)> = Vec::new();
    fields.push(("status".to_owned(), Field::Text(response.status)));
    if let Some(id) = response.job_id {
        fields.push(("job_id".to_owned(), Field::Text(decimal_text(id))));
    }
    if let Some(path) = response.path {
        fields.push(("path".to_owned(), Field::Path(path)));
    }
    if let Some(text) = response.error {
        fields.push(("error".to_owned(), Field::Text(text)));
    }
    assert(fields@.map_values(named) =~= response_fields(view));
    fields
}

/// The search yielded, and goes on under its job id.
pub open spec fn in_progress_view<P>(job_id: u64) -> ResponseView<P> {
    ResponseView { status: "in_progress"@, job_id: Some(job_id), path: None, error: None }
}

/// There is no path; `empty` is the host's path without a step.
pub open spec fn no_path_view<P>(empty: P) -> ResponseView<P> {
    ResponseView { status: "no_path"@, job_id: None, path: Some(empty), error: None }
}

/// The search is over, and this is what it hands out.
pub open spec fn complete_view<P>(path: P) -> ResponseView<P> {
    ResponseView { status: "complete"@, job_id: None, path: Some(path), error: None }
}

/// The search was called off.
pub open spec fn cancelled_view<P>(job_id: u64) -> ResponseView<P> {
    ResponseView { status: "cancelled"@, job_id: Some(job_id), path: None, error: None }
}

/// The search broke off.
pub open spec fn failed_view<P>(job_id: u64, message: Seq<char>) -> ResponseView<P> {
    ResponseView { status: "error"@, job_id: Some(job_id), path: None, error: Some(message) }
}

/// What the caller named is no job id.
pub open spec fn invalid_job_view<P>() -> ResponseView<P> {
    ResponseView {
        status: "error"@,
        job_id: None,
        path: None,
        error: Some("invalid navmap pathfinder job ID"@),
    }
}

/// No search goes on under the job id.
pub open spec fn unknown_job_view<P>(job_id: u64) -> ResponseView<P> {
    failed_view(job_id, "unknown or expired navmap pathfinder job"@)
}

impl<P> StatusResponse<P> {
    pub fn in_progress(job_id: u64) -> (r: Self)
        ensures
            r@ == in_progress_view::<P>(job_id),
    {
        StatusResponse {
            status: "in_progress".to_owned(),
            job_id: Some(job_id),
            path: None,
            error: None,
        }
    }

    pub fn no_path(empty: P) -> (r: Self)
        ensures
            r@ == no_path_view(empty),
    {
        StatusResponse {
            status: "no_path".to_owned(),
            job_id: None,
            path: Some(empty),
            error: None,
        }
    }

    pub fn complete(path: P) -> (r: Self)
        ensures
            r@ == complete_view(path),
    {
        StatusResponse {
            status: "complete".to_owned(),
            job_id: None,
            path: Some(path),
            error: None,
        }
    }

    pub fn cancelled(job_id: u64) -> (r: Self)
        ensures
            r@ == cancelled_view::<P>(job_id),
    {
        StatusResponse {
            status: "cancelled".to_owned(),
            job_id: Some(job_id),
            path: None,
            error: None,
        }
    }

    pub fn failed(job_id: u64, message: String) -> (r: Self)
        ensures
            r@ == failed_view::<P>(job_id, message@),
    {
        StatusResponse {
            status: "error".to_owned(),
            job_id: Some(job_id),
            path: None,
            error: Some(message),
        }
    }

    pub fn invalid_job() -> (r: Self)
        ensures
            r@ == invalid_job_view::<P>(),
    {
        StatusResponse {
            status: "error".to_owned(),
            job_id: None,
            path: None,
            error: Some("invalid navmap pathfinder job ID".to_owned()),
        }
    }

    pub fn unknown_job(job_id: u64) -> (r: Self)
        ensures
            r@ == unknown_job_view::<P>(job_id),
    {
        StatusResponse::failed(job_id, "unknown or expired navmap pathfinder job".to_owned())
    }
}

} // verus!
