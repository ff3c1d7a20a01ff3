//! Failures of a pipeline run.
use vstd::prelude::*;

verus! {

/// What went wrong, with the detail that the owner is told.
#[derive(Debug)]
pub enum Error {
    /// A source or the transport could not be reached; the detail describes it.
    ConnectionError(String),
    /// An expected element was missing from a fetched page; names the element.
    ElementNotFound(String),
    /// An expected attribute was missing from a fetched page; names the attribute.
    AttrNotFound(String),
    /// The notification transport refused or failed a message.
    TelegramApiError(String),
    /// The ledger's storage failed.
    DatabaseConnectionError(String),
}

/// The text of an error, as the owner receives it.
pub open spec fn error_text(e: Error) -> Seq<char> {
    match e {
        Error::ConnectionError(d) => "Reqwest Connection Error: "@ + d@ + "\n"@,
        Error::ElementNotFound(n) => "Element \""@ + n@ + "\" not found while parsing website"@ + "\n"@,
        Error::AttrNotFound(n) => "Attribute \""@ + n@ + "\" not found while parsing website"@ + "\n"@,
        Error::TelegramApiError(d) => "Telegram API Connection Error: "@ + d@ + "\n"@,
        Error::DatabaseConnectionError(d) => "SQLite Connection Error: "@ + d@ + "\n"@,
    }
}

impl Error {
    /// The error as a line of text.
    pub fn to_string(&self) -> (r: String)
        ensures
            r@ == error_text(*self),
    {
        let mut ans = String::new();
        match self {
            Error::ConnectionError(d) => {
                ans.append("Reqwest Connection Error: ");
                ans.append(d.as_str());
            },
            Error::ElementNotFound(n) => {
                ans.append("Element \"");
                ans.append(n.as_str());
                ans.append("\" not found while parsing website");
            },
            Error::AttrNotFound(n) => {
                ans.append("Attribute \"");
                ans.append(n.as_str());
                ans.append("\" not found while parsing website");
            },
            Error::TelegramApiError(d) => {
                ans.append("Telegram API Connection Error: ");
                ans.append(d.as_str());
            },
            Error::DatabaseConnectionError(d) => {
                ans.append("SQLite Connection Error: ");
                ans.append(d.as_str());
            },
        }
        ans.append("\n");
        ans
    }
}

} // verus!
