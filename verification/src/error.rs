//! The error shown to the user: a title, a message and optional details.
use vstd::prelude::*;

use crate::text::{concat, owned};

verus! {

/// An error as presented to the user.
#[derive(Debug, Clone)]
pub struct UserFacingError {
    pub title: String,
    pub message: String,
    pub details: Option<String>,
}

/// The character view of optional details.
pub open spec fn opt_view(o: Option<String>) -> Option<Seq<char>> {
    match o {
        Some(s) => Some(s@),
        None => None,
    }
}

impl UserFacingError {
    /// The error has exactly this title, message and details.
    pub open spec fn is(self, title: Seq<char>, message: Seq<char>, details: Option<Seq<char>>) -> bool {
        &&& self.title@ == title
        &&& self.message@ == message
        &&& opt_view(self.details) == details
    }

    /// Builds an error from its parts.
    pub fn new(title: String, message: String, details: Option<String>) -> (res: Self)
        ensures
            res.title == title,
            res.message == message,
            res.details == details,
    {
        UserFacingError { title, message, details }
    }

    /// A failed file-system action on a path: the message reads
    /// "`action` failed for `path`" and the details carry the system's
    /// error text.
    pub fn io(action: &str, path: &str, error_text: &str) -> (res: Self)
        ensures
            res.is(
                "File System Error"@,
                action@ + " failed for "@ + path@,
                Some(error_text@),
            ),
    {
        let m1 = concat(action, " failed for ");
        let message = concat(m1.as_str(), path);
        UserFacingError::new(owned("File System Error"), message, Some(owned(error_text)))
    }

    /// A file that could not be parsed as JSON; the details carry the
    /// parser's error text.
    pub fn invalid_json(path: &str, error_text: &str) -> (res: Self)
        ensures
            res.is("Invalid JSON"@, "Failed to parse "@ + path@, Some(error_text@)),
    {
        let message = concat("Failed to parse ", path);
        UserFacingError::new(owned("Invalid JSON"), message, Some(owned(error_text)))
    }

    /// The one-line rendering "`title`: `message`".
    pub fn display(&self) -> (res: String)
        ensures
            res@ == self.title@ + ": "@ + self.message@,
    {
        let head = concat(self.title.as_str(), ": ");
        concat(head.as_str(), self.message.as_str())
    }

    /// A copy with the same parts.
    pub fn duplicate(&self) -> (res: Self)
        ensures
            res == *self,
    {
        let details = match &self.details {
            Some(d) => Some(d.clone()),
            None => None,
        };
        UserFacingError { title: self.title.clone(), message: self.message.clone(), details }
    }
}

/// Builds an error without details from a title and a message.
pub fn plain_error(title: &str, message: &str) -> (res: UserFacingError)
    ensures
        res.is(title@, message@, None),
{
    UserFacingError::new(owned(title), owned(message), None)
}

} // verus!
