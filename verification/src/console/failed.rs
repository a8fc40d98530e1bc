//! What the console says of a request it could not do.

use vstd::prelude::*;

use crate::api::answer::{Answer, AnswerV};
use crate::json::{field, fields, no_fields, object, text, whole, Json, JsonV, NumberV};

verus! {

/// Why a request could not be done: its status, what is said of it, and what
/// the page looks at -- the objects, the engine's error, or attributes of its
/// own.
pub struct Failed {
    pub status: u16,
    pub message: String,
    pub objects: Option<Json>,
    pub error: Option<Json>,
    pub attributes: Option<Json>,
}

#[verifier::ext_equal]
pub struct FailedV {
    pub status: u16,
    pub message: Seq<char>,
    pub objects: Option<JsonV>,
    pub error: Option<JsonV>,
    pub attributes: Option<JsonV>,
}

impl DeepView for Failed {
    type V = FailedV;

    open spec fn deep_view(&self) -> FailedV {
        FailedV {
            status: self.status,
            message: self.message@,
            objects: self.objects.deep_view(),
            error: self.error.deep_view(),
            attributes: self.attributes.deep_view(),
        }
    }
}

/// A failure by its status and what is said of it.
pub open spec fn failure(status: u16, message: Seq<char>) -> FailedV {
    FailedV { status, message, objects: None, error: None, attributes: None }
}

impl Failed {
    /// A failure by its status and what is said of it.
    pub fn of(status: u16, message: &str) -> (f: Failed)
        ensures
            f.deep_view() == failure(status, message@),
    {
        Failed {
            status,
            message: message.to_owned(),
            objects: None,
            error: None,
            attributes: None,
        }
    }

    /// The failure with attributes of its own.
    pub fn with_attributes(self, attributes: Json) -> (f: Failed)
        ensures
            f.deep_view() == (FailedV {
                attributes: Some(attributes.deep_view()),
                ..self.deep_view()
            }),
    {
        Failed {
            status: self.status,
            message: self.message,
            objects: self.objects,
            error: self.error,
            attributes: Some(attributes),
        }
    }

    /// The failure with the engine's error.
    pub fn with_error(self, error: Json) -> (f: Failed)
        ensures
            f.deep_view() == (FailedV { error: Some(error.deep_view()), ..self.deep_view() }),
    {
        Failed {
            status: self.status,
            message: self.message,
            objects: self.objects,
            error: Some(error),
            attributes: self.attributes,
        }
    }
}

/// The words a status is known by.
pub uninterp spec fn phrase(status: u16) -> Option<Seq<char>>;

/// The words of the statuses that failures here are made with.
pub open spec fn usual_words(status: u16) -> Option<Seq<char>> {
    if status == 400 {
        Some("Bad Request"@)
    } else if status == 404 {
        Some("Not Found"@)
    } else if status == 409 {
        Some("Conflict"@)
    } else if status == 415 {
        Some("Unsupported Media Type"@)
    } else if status == 500 {
        Some("Internal Server Error"@)
    } else if status == 502 {
        Some("Bad Gateway"@)
    } else {
        None
    }
}

/// `http::StatusCode::canonical_reason`, of the status that
/// `http::StatusCode::from_u16` takes: the words the status is known by, the
/// same whenever they are asked for. A number below a hundred or of more than
/// three digits is no status and has none, and the usual statuses have the usual
/// words.
#[verifier::external_body]
pub(crate) fn canonical_reason(status: u16) -> (r: Option<&'static str>)
    ensures
        r.deep_view() == phrase(status),
        status < 100 || status > 999 ==> r is None,
        usual_words(status) is Some ==> r.deep_view() == usual_words(status),
{
    match axum::http::StatusCode::from_u16(status) {
        Ok(s) => s.canonical_reason(),
        Err(_) => None,
    }
}

/// The status an answer is given with: a number that is none is an error of the
/// server's own.
pub open spec fn answered_with(status: u16) -> u16 {
    if 100 <= status <= 999 {
        status
    } else {
        500
    }
}

/// What a page is shown besides the message.
pub open spec fn shown(e: FailedV) -> Option<JsonV> {
    match (e.attributes, e.error, e.objects) {
        (Some(a), _, _) => Some(a),
        (None, Some(x), _) => Some(JsonV::Object(no_fields().push(("error"@, x)))),
        (None, None, Some(o)) => Some(JsonV::Object(no_fields().push(("objects"@, o)))),
        (None, None, None) => None,
    }
}

/// The answer to a request that failed, the words of its status being some.
pub open spec fn refusal(e: FailedV, words: Option<Seq<char>>) -> AnswerV {
    let o = no_fields().push(
        ("statusCode"@, JsonV::Number(NumberV::Whole(e.status as u64))),
    ).push(
        (
            "error"@,
            JsonV::Text(
                match words {
                    Some(w) => w,
                    None => "Error"@,
                },
            ),
        ),
    ).push(("message"@, JsonV::Text(e.message)));
    AnswerV {
        status: answered_with(e.status),
        body: JsonV::Object(
            match shown(e) {
                Some(a) => o.push(("attributes"@, a)),
                None => o,
            },
        ),
    }
}

/// The answer to a request that failed, the words of its status being some.
pub fn refused_saying(e: &Failed, words: Option<&str>) -> (r: Answer)
    ensures
        r.deep_view() == refusal(e.deep_view(), words.deep_view()),
{
    let mut o = fields();
    field(&mut o, "statusCode", whole(e.status as u64));
    field(
        &mut o,
        "error",
        text(
            match words {
                Some(w) => w,
                None => "Error",
            },
        ),
    );
    field(&mut o, "message", text(e.message.as_str()));
    if let Some(a) = &e.attributes {
        field(&mut o, "attributes", a.clone());
    } else if let Some(x) = &e.error {
        let mut inner = fields();
        field(&mut inner, "error", x.clone());
        field(&mut o, "attributes", object(inner));
    } else if let Some(x) = &e.objects {
        let mut inner = fields();
        field(&mut inner, "objects", x.clone());
        field(&mut o, "attributes", object(inner));
    }
    Answer {
        status: if 100 <= e.status && e.status <= 999 {
            e.status
        } else {
            500
        },
        body: object(o),
    }
}

/// The answer to a request that failed.
pub open spec fn failed_answer(e: FailedV) -> AnswerV {
    refusal(e, phrase(answered_with(e.status)))
}

/// The answer to a request that failed.
pub fn refused(e: &Failed) -> (r: Answer)
    ensures
        r.deep_view() == failed_answer(e.deep_view()),
        usual_words(answered_with(e.status)) is Some ==> r.deep_view() == refusal(
            e.deep_view(),
            usual_words(answered_with(e.status)),
        ),
{
    let status: u16 = if 100 <= e.status && e.status <= 999 {
        e.status
    } else {
        500
    };
    refused_saying(e, canonical_reason(status))
}

/// What is said about a path that is not served.
pub fn not_found() -> (r: Answer)
    ensures
        r.deep_view() == refusal(failure(404, "Not Found"@), Some("Not Found"@)),
{
    refused(&Failed::of(404, "Not Found"))
}

/// What is said of a query that does not fit: the key named, and what was wrong
/// with it.
pub open spec fn query_failure(key: Seq<char>, what: Seq<char>) -> FailedV {
    failure(400, "[request query."@ + key + "]: "@ + what)
}

/// What is said of a query that does not fit.
pub fn bad_query(key: &str, what: &str) -> (f: Failed)
    ensures
        f.deep_view() == query_failure(key@, what@),
{
    Failed::of(400, "[request query.".to_owned().concat(key).concat("]: ").concat(what).as_str())
}

/// What is said of a body that lacks something: what it should have been.
pub open spec fn body_failure(key: Seq<char>, kind: Seq<char>, got: Seq<char>) -> FailedV {
    failure(
        400,
        "[request body."@ + key + "]: expected value of type ["@ + kind + "] but got ["@ + got
            + "]"@,
    )
}

/// What is said of a body that lacks something.
pub fn bad_body(key: &str, kind: &str, got: &str) -> (f: Failed)
    ensures
        f.deep_view() == body_failure(key@, kind@, got@),
{
    Failed::of(
        400,
        "[request body.".to_owned().concat(key).concat("]: expected value of type [").concat(
            kind,
        ).concat("] but got [").concat(got).concat("]").as_str(),
    )
}

} // verus!
