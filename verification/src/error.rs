//! The library's error taxonomy: what aborts an operation, what aborts a
//! whole assembly, and what merely skips a layer.
use vstd::prelude::*;

verus! {

/// Everything that can go wrong in the pipeline.
#[derive(Debug)]
pub enum Error {
    /// A read or write on a file failed; the text describes it.
    IOError(String),
    /// A file data source carries an extension naming no known format.
    UnknownFileExtension { ext: String },
    /// A file data source has no usable extension at all.
    UnknownFileType { path: String },
    /// A backup already exists at this path with different content.
    BackupWouldBeOverwritten(String),
    /// A file data source's text does not parse in its format.
    ParseError(String),
    /// Compiling or rendering a template failed; the text describes it.
    TemplateError(String),
    /// The signal argument names no known signal.
    CliInvalidSignal,
    /// The named config map is absent.
    ConfigMapDoesNotExist(String),
    /// The named secret is absent.
    SecretDoesNotExist(String),
    /// Delivering a signal or spawning a process failed.
    SystemError(String),
    /// The plan cannot be executed as configured: duplicate destinations,
    /// or watch mode over a destination that does not support it.
    Validation(String),
}

/// A data source failure, classified by whether assembly may go on.
///
/// `Recoverable` failures (a source temporarily unreachable) skip that
/// source's layer; `Fatal` failures (malformed data, an unknown format)
/// abort the whole assembly.
#[derive(Debug)]
pub enum DataSourceError {
    Recoverable(Error),
    Fatal(Error),
}

impl DataSourceError {
    pub fn recoverable(e: Error) -> (r: Self)
        ensures
            r == DataSourceError::Recoverable(e),
    {
        DataSourceError::Recoverable(e)
    }

    pub fn fatal(e: Error) -> (r: Self)
        ensures
            r == DataSourceError::Fatal(e),
    {
        DataSourceError::Fatal(e)
    }

    pub fn is_recoverable(&self) -> (r: bool)
        ensures
            r == (self is Recoverable),
    {
        match self {
            DataSourceError::Recoverable(_) => true,
            DataSourceError::Fatal(_) => false,
        }
    }

    pub fn is_fatal(&self) -> (r: bool)
        ensures
            r == (self is Fatal),
    {
        match self {
            DataSourceError::Fatal(_) => true,
            DataSourceError::Recoverable(_) => false,
        }
    }

    /// The error carried, with the classification stripped.
    pub fn into_error(self) -> (r: Error)
        ensures
            r == self.spec_error(),
    {
        match self {
            DataSourceError::Recoverable(e) => e,
            DataSourceError::Fatal(e) => e,
        }
    }

    /// The error carried by either classification.
    pub open spec fn spec_error(self) -> Error {
        match self {
            DataSourceError::Recoverable(e) => e,
            DataSourceError::Fatal(e) => e,
        }
    }
}

/// Attaching a failure classification to a plain error.
pub trait ToDataSourceError: Sized {
    type Target;

    /// The model of `fatal`.
    spec fn spec_fatal(self) -> Self::Target;

    /// The model of `recoverable`.
    spec fn spec_recoverable(self) -> Self::Target;

    /// Classify as aborting the whole assembly.
    fn fatal(self) -> (r: Self::Target)
        ensures
            r == self.spec_fatal(),
    ;

    /// Classify as merely skipping this source's layer.
    fn recoverable(self) -> (r: Self::Target)
        ensures
            r == self.spec_recoverable(),
    ;
}

impl ToDataSourceError for Error {
    type Target = DataSourceError;

    open spec fn spec_fatal(self) -> DataSourceError {
        DataSourceError::Fatal(self)
    }

    open spec fn spec_recoverable(self) -> DataSourceError {
        DataSourceError::Recoverable(self)
    }

    fn fatal(self) -> (r: DataSourceError) {
        DataSourceError::Fatal(self)
    }

    fn recoverable(self) -> (r: DataSourceError) {
        DataSourceError::Recoverable(self)
    }
}

} // verus!
