use vstd::prelude::*;

verus! {

/// Every way a build can fail.
#[derive(Debug)]
pub enum Error {
    /// A directive with nothing but whitespace between its braces.
    Empty,
    /// A quote inside a directive that is never closed.
    UnclosedQuote,
    /// A directive lacks a required argument; holds the argument's name.
    MissingArgument(&'static str),
    /// The first word of a directive names no known directive.
    UnknownTemplate(String),
    /// A `{{` without a matching `}}`.
    UnclosedTemplate,
    /// A file could not be read or written.
    IOError(String),
    /// The front matter of a page is not a valid configuration.
    ConfigParseError(String),
    /// A `+++` front-matter block without its closing `+++`.
    UnclosedConfig,
    /// A template reached through `extends` has no `pagecontent` marker.
    ExtendWithNoPageContent,
    /// An `exec` command exited unsuccessfully: its exit code, if any, and its stderr.
    ExecCommandFailed(Option<i32>, String),
    /// A `pagecontent` marker at the top level of a page.
    ToplevelPageContent,
    /// A `currentdate` format that the date formatter rejects.
    InvalidDateFormat(String),
}

/// The mathematical value of an [`Error`].
pub enum ErrorModel {
    Empty,
    UnclosedQuote,
    MissingArgument(Seq<char>),
    UnknownTemplate(Seq<char>),
    UnclosedTemplate,
    IOError(Seq<char>),
    ConfigParseError(Seq<char>),
    UnclosedConfig,
    ExtendWithNoPageContent,
    ExecCommandFailed(Option<i32>, Seq<char>),
    ToplevelPageContent,
    InvalidDateFormat(Seq<char>),
}

impl View for Error {
    type V = ErrorModel;

    open spec fn view(&self) -> ErrorModel {
        match self {
            Error::Empty => ErrorModel::Empty,
            Error::UnclosedQuote => ErrorModel::UnclosedQuote,
            Error::MissingArgument(a) => ErrorModel::MissingArgument(a@),
            Error::UnknownTemplate(n) => ErrorModel::UnknownTemplate(n@),
            Error::UnclosedTemplate => ErrorModel::UnclosedTemplate,
            Error::IOError(m) => ErrorModel::IOError(m@),
            Error::ConfigParseError(m) => ErrorModel::ConfigParseError(m@),
            Error::UnclosedConfig => ErrorModel::UnclosedConfig,
            Error::ExtendWithNoPageContent => ErrorModel::ExtendWithNoPageContent,
            Error::ExecCommandFailed(c, m) => ErrorModel::ExecCommandFailed(*c, m@),
            Error::ToplevelPageContent => ErrorModel::ToplevelPageContent,
            Error::InvalidDateFormat(f) => ErrorModel::InvalidDateFormat(f@),
        }
    }
}

pub type Result<T> = core::result::Result<T, Error>;

/// The view of a result whose success value has a view.
pub open spec fn result_view<T: View>(r: Result<T>) -> core::result::Result<T::V, ErrorModel> {
    match r {
        Ok(v) => Ok(v@),
        Err(e) => Err(e@),
    }
}

} // verus!
