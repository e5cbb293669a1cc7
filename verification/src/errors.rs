use vstd::prelude::*;
use vstd::string::StringExecFns;

verus! {

/// The fatal error conditions of a crawl.
///
/// Every variant carries plain data only; callers that need a printable
/// form go through [`ScraperError::message`].
#[derive(Debug)]
pub enum ScraperError {
    /// Fetching a page failed; holds a description of the transport error.
    RequestFailed(String),
    /// The page had no recognizable content area; holds the page's URL.
    NoContentFound(String),
    /// A task could not be handed to the internal channel.
    ChannelError,
    /// Reading a response body failed; holds a description of the I/O error.
    ReadError(String),
}

impl ScraperError {
    /// The description that [`ScraperError::message`] returns.
    pub open spec fn message_spec(&self) -> Seq<char> {
        match self {
            ScraperError::RequestFailed(d) => "could not fetch data: "@ + d@,
            ScraperError::NoContentFound(u) => "could not find any content in the page with url "@
                + u@,
            ScraperError::ChannelError => "could not send data to internal channel"@,
            ScraperError::ReadError(d) => "could not read response: "@ + d@,
        }
    }

    /// A human-readable description of the error.
    pub fn message(&self) -> (r: String)
        ensures
            r@ == self.message_spec(),
    {
        match self {
            ScraperError::RequestFailed(d) => "could not fetch data: ".to_owned().concat(
                d.as_str(),
            ),
            ScraperError::NoContentFound(u) => "could not find any content in the page with url "
                .to_owned().concat(u.as_str()),
            ScraperError::ChannelError => "could not send data to internal channel".to_owned(),
            ScraperError::ReadError(d) => "could not read response: ".to_owned().concat(d.as_str()),
        }
    }
}

} // verus!
