//! The error kinds of the pipeline. Every error is terminal: the caller
//! aborts the whole run, none is downgraded to a warning.

use vstd::prelude::*;

verus! {

/// What can go wrong along the pipeline, each with its detail text:
/// the input document cannot be read, a repository URL does not match the
/// hosting-provider pattern, the hosting API call fails, the API response is
/// missing a needed field, or the rendering engine cannot be configured or
/// finds no template.
#[derive(PartialEq, Eq, Debug)]
pub enum Error {
    ConfigReadError(String),
    UrlParseError(String),
    GithubApiError(String),
    GithubParseError(String),
    TemplateConfigError(String),
    TemplateLookupError(String),
}

/// Mathematical view of an `Error`.
pub ghost enum ErrorV {
    ConfigRead(Seq<char>),
    UrlParse(Seq<char>),
    GithubApi(Seq<char>),
    GithubParse(Seq<char>),
    TemplateConfig(Seq<char>),
    TemplateLookup(Seq<char>),
}

impl View for Error {
    type V = ErrorV;

    open spec fn view(&self) -> ErrorV {
        match self {
            Error::ConfigReadError(m) => ErrorV::ConfigRead(m@),
            Error::UrlParseError(m) => ErrorV::UrlParse(m@),
            Error::GithubApiError(m) => ErrorV::GithubApi(m@),
            Error::GithubParseError(m) => ErrorV::GithubParse(m@),
            Error::TemplateConfigError(m) => ErrorV::TemplateConfig(m@),
            Error::TemplateLookupError(m) => ErrorV::TemplateLookup(m@),
        }
    }
}

/// The descriptive text of an error: a fixed prefix naming the kind,
/// followed by the detail.
pub open spec fn message_spec(e: ErrorV) -> Seq<char> {
    match e {
        ErrorV::ConfigRead(m) => "cannot read configuration: "@ + m,
        ErrorV::UrlParse(m) => "cannot parse repository url: "@ + m,
        ErrorV::GithubApi(m) => "github api error: "@ + m,
        ErrorV::GithubParse(m) => "cannot parse github response: "@ + m,
        ErrorV::TemplateConfig(m) => "cannot configure template engine: "@ + m,
        ErrorV::TemplateLookup(m) => "cannot find template: "@ + m,
    }
}

impl Error {
    /// The human-readable description, printed by the surrounding program
    /// before it exits non-zero.
    pub fn message(&self) -> (r: String)
        ensures
            r@ == message_spec(self@),
    {
        match self {
            Error::ConfigReadError(m) => String::from_str("cannot read configuration: ").concat(
                m.as_str(),
            ),
            Error::UrlParseError(m) => String::from_str("cannot parse repository url: ").concat(
                m.as_str(),
            ),
            Error::GithubApiError(m) => String::from_str("github api error: ").concat(m.as_str()),
            Error::GithubParseError(m) => String::from_str("cannot parse github response: ")
                .concat(m.as_str()),
            Error::TemplateConfigError(m) => String::from_str(
                "cannot configure template engine: ",
            ).concat(m.as_str()),
            Error::TemplateLookupError(m) => String::from_str("cannot find template: ").concat(
                m.as_str(),
            ),
        }
    }
}

} // verus!
