use vstd::prelude::*;

verus! {

/// Errors that a request handler can answer with.
#[derive(Debug)]
pub enum AppError {
    NotFound,
    BadRequest(String),
    Unauthorized(String),
    OtherInternalServerError(String),
}

impl AppError {
    /// HTTP status code that the error is answered with.
    pub open spec fn spec_status_code(&self) -> u16 {
        match self {
            AppError::NotFound => 404,
            AppError::BadRequest(_) => 400,
            AppError::Unauthorized(_) => 401,
            AppError::OtherInternalServerError(_) => 500,
        }
    }

    /// Human readable description of the error.
    pub open spec fn spec_message(&self) -> Seq<char> {
        match self {
            AppError::NotFound => "Not Found"@,
            AppError::BadRequest(s) => "Bad request: "@ + s@,
            AppError::Unauthorized(s) => "Unauthorized: "@ + s@,
            AppError::OtherInternalServerError(s) => "Internal server error: "@ + s@,
        }
    }

    /// Whether this is a `BadRequest` carrying exactly the message `msg`.
    pub open spec fn is_bad_request(&self, msg: Seq<char>) -> bool {
        self matches AppError::BadRequest(s) && s@ == msg
    }

    pub fn status_code(&self) -> (code: u16)
        ensures
            code == self.spec_status_code(),
    {
        match self {
            AppError::NotFound => 404,
            AppError::BadRequest(_) => 400,
            AppError::Unauthorized(_) => 401,
            AppError::OtherInternalServerError(_) => 500,
        }
    }

    /// The text that describes the error, as its display form writes it.
    pub fn message(&self) -> (m: String)
        ensures
            m@ == self.spec_message(),
    {
        match self {
            AppError::NotFound => "Not Found".to_string(),
            AppError::BadRequest(s) => {
                let mut m = "Bad request: ".to_string();
                m.append(s.as_str());
                m
            },
            AppError::Unauthorized(s) => {
                let mut m = "Unauthorized: ".to_string();
                m.append(s.as_str());
                m
            },
            AppError::OtherInternalServerError(s) => {
                let mut m = "Internal server error: ".to_string();
                m.append(s.as_str());
                m
            },
        }
    }
}

/// A `BadRequest` error with the given text.
pub fn bad_request(msg: &str) -> (e: AppError)
    ensures
        e.is_bad_request(msg@),
{
    AppError::BadRequest(msg.to_string())
}

} // verus!
