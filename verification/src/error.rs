//! The error of a failed download.
use vstd::prelude::*;
use vstd::string::StringExecFns;

verus! {

/// `String::from` copies the characters of a string slice.
pub assume_specification<'a>[ <String as From<&'a str>>::from ](s: &str) -> (text: String)
    ensures
        text@ == s@,
;

/// The conversion of a value into its own type, `From::from`, returns the value unchanged.
pub assume_specification<Kept>[ <Kept as From<Kept>>::from ](value: Kept) -> (same: Kept)
    ensures
        same == value,
;

/// Why a download failed.
#[derive(Debug)]
pub struct DownloadError {
    message: String,
}

impl Clone for DownloadError {
    fn clone(&self) -> (copy: DownloadError)
        ensures
            copy.message() == self.message(),
    {
        DownloadError { message: self.message.clone() }
    }
}

impl DownloadError {
    /// What went wrong, in words.
    pub closed spec fn message(&self) -> Seq<char> {
        self.message@
    }

    /// An error with the message that `message` converts into.
    pub fn new<S: Into<String>>(message: S) -> (error: DownloadError)
        ensures
            is_error_of(message, error),
    {
        let message = message.into();
        DownloadError { message }
    }

    /// The error as it is shown to a user.
    pub fn to_string(&self) -> (text: String)
        ensures
            text@ == "DownloadError: "@ + self.message(),
    {
        let mut text = String::from("DownloadError: ");
        text.append(self.message.as_str());
        text
    }
}

/// Whether `error` has a message that `message` converts into.
pub open spec fn is_error_of<S: Into<String>>(message: S, error: DownloadError) -> bool {
    exists|text: String| #[trigger]
        call_ensures(<S as Into<String>>::into, (message,), text) && error.message() == text@
}

/// An error made of a text holds that text, whether the text is borrowed or owned.
pub proof fn law_error_holds_its_text(
    borrowed: &str,
    owned: String,
    of_borrowed: DownloadError,
    of_owned: DownloadError,
)
    requires
        is_error_of(borrowed, of_borrowed),
        is_error_of(owned, of_owned),
    ensures
        of_borrowed.message() == borrowed@,
        of_owned.message() == owned@,
{
}

} // verus!
