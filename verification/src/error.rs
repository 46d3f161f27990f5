use vstd::prelude::*;

use crate::text::{chars_of, push_all, push_str, string_of};

verus! {

/// What a request can fail with.
#[derive(Clone, Debug)]
pub enum AppError {
    /// The request itself is wrong; the message says why.
    BadRequest(String),
    /// The thing asked for does not exist.
    NotFound,
    /// The request clashes with what is stored.
    Conflict(String),
    /// Something under the request failed (an archive, a file, the database).
    Internal(String),
}

/// `e` is a bad-request error whose message is `msg`.
pub open spec fn is_bad(e: AppError, msg: Seq<char>) -> bool {
    e matches AppError::BadRequest(m) && m@ == msg
}

/// `e` is an internal error whose message is `msg`.
pub open spec fn is_internal(e: AppError, msg: Seq<char>) -> bool {
    e matches AppError::Internal(m) && m@ == msg
}

/// The text shown for an error.
pub open spec fn error_text(e: AppError) -> Seq<char> {
    match e {
        AppError::BadRequest(m) => m@,
        AppError::NotFound => "не найдено"@,
        AppError::Conflict(m) => m@,
        AppError::Internal(m) => m@,
    }
}

impl AppError {
    /// A bad-request error with the message `msg`.
    pub fn bad(msg: &str) -> (e: AppError)
        ensures
            is_bad(e, msg@),
    {
        AppError::BadRequest(msg.to_owned())
    }

    /// A bad-request error whose message is `prefix`, `middle` and `suffix` in turn.
    pub fn bad_around(prefix: &str, middle: &Vec<char>, suffix: &str) -> (e: AppError)
        ensures
            is_bad(e, prefix@ + middle@ + suffix@),
    {
        let mut v: Vec<char> = chars_of(prefix);
        push_all(&mut v, middle);
        push_str(&mut v, suffix);
        AppError::BadRequest(string_of(&v))
    }

    /// A bad-request error whose message is `prefix` followed by `middle`.
    pub fn bad_prefixed(prefix: &str, middle: &Vec<char>) -> (e: AppError)
        ensures
            is_bad(e, prefix@ + middle@),
    {
        let mut v: Vec<char> = chars_of(prefix);
        push_all(&mut v, middle);
        AppError::BadRequest(string_of(&v))
    }

    /// A bad-request error whose message is `middle` followed by `suffix`.
    pub fn bad_suffixed(middle: &Vec<char>, suffix: &str) -> (e: AppError)
        ensures
            is_bad(e, middle@ + suffix@),
    {
        let mut v: Vec<char> = middle.clone();
        push_str(&mut v, suffix);
        AppError::BadRequest(string_of(&v))
    }

    /// A conflict error whose message is `prefix`, `middle` and `suffix` in turn.
    pub fn conflict_around(prefix: &str, middle: &Vec<char>, suffix: &str) -> (e: AppError)
        ensures
            e matches AppError::Conflict(m) && m@ == prefix@ + middle@ + suffix@,
    {
        let mut v: Vec<char> = chars_of(prefix);
        push_all(&mut v, middle);
        push_str(&mut v, suffix);
        AppError::Conflict(string_of(&v))
    }

    /// The text shown for this error.
    pub fn to_string(&self) -> (s: String)
        ensures
            s@ == error_text(*self),
    {
        match self {
            AppError::BadRequest(m) => m.clone(),
            AppError::NotFound => "не найдено".to_owned(),
            AppError::Conflict(m) => m.clone(),
            AppError::Internal(m) => m.clone(),
        }
    }
}

} // verus!
