//! The ways a profile lookup can fail, and how each is told to the user.
use vstd::prelude::*;
use vstd::string::*;

verus! {

/// Why a lookup failed.
///
/// `Network` carries the transport error's own text; `ImageError` the text
/// of the decoder's error.
#[derive(Debug, Clone)]
pub enum CheckGitError {
    Network(String),
    UserNotFound,
    RateLimited,
    Unauthorized,
    GithubServerError,
    ImageError(String),
    InvalidResponse,
}

/// The line that tells the user about `e`.
pub open spec fn error_message(e: CheckGitError) -> Seq<char> {
    match e {
        CheckGitError::Network(text) => "Network error: "@ + text@,
        CheckGitError::UserNotFound => "GitHub user not found"@,
        CheckGitError::RateLimited => "Rate limited. Add GITHUB_TOKEN for higher limits."@,
        CheckGitError::Unauthorized => "Unauthorized. Invalid token."@,
        CheckGitError::GithubServerError => "GitHub server error."@,
        CheckGitError::ImageError(text) => "Image processing error: "@ + text@,
        CheckGitError::InvalidResponse => "Invalid API response."@,
    }
}

impl CheckGitError {
    /// The text shown for this error (what `Display` writes for it).
    pub fn message(&self) -> (text: String)
        ensures
            text@ == error_message(*self),
    {
        match self {
            CheckGitError::Network(e) => {
                let mut text = String::from_str("Network error: ");
                text.append(e.as_str());
                text
            },
            CheckGitError::UserNotFound => String::from_str("GitHub user not found"),
            CheckGitError::RateLimited => String::from_str(
                "Rate limited. Add GITHUB_TOKEN for higher limits.",
            ),
            CheckGitError::Unauthorized => String::from_str("Unauthorized. Invalid token."),
            CheckGitError::GithubServerError => String::from_str("GitHub server error."),
            CheckGitError::ImageError(e) => {
                let mut text = String::from_str("Image processing error: ");
                text.append(e.as_str());
                text
            },
            CheckGitError::InvalidResponse => String::from_str("Invalid API response."),
        }
    }
}

} // verus!
