use vstd::prelude::*;

verus! {

/// The closed set of failures shared by the formatter and the build pipeline.
#[derive(Debug, PartialEq, Eq)]
pub enum Error {
    /// A source value cannot yield a canonical file name.
    InvalidSource,
    /// The project directory holds no main descriptor file.
    MainFileNotFound,
    /// The main descriptor declares a format tag this build does not support;
    /// carries the declared tag.
    UnsupportedFormat(String),
    /// A main descriptor already exists where a new project was to be created.
    AlreadyInitiated,
    /// A download failed; carries the reported cause.
    Fetch(String),
    /// An endpoint string is not a well-formed absolute URL; carries the
    /// reported cause.
    URL(String),
    /// A filesystem operation failed; carries the offending path and the
    /// cause.
    IO(String, String),
    /// Descriptor content is malformed or structurally invalid; carries the
    /// reported cause.
    Serde(String),
}

} // verus!

verus! {

/// Attaches the offending path while converting a raw failure into the
/// library's error.
pub trait MapErrToNiterExt<T>: Sized {
    /// Whether `r` is the correct mapping of this value under `path`.
    spec fn niter_mapped(self, path: Seq<char>, r: Result<T, Error>) -> bool;

    /// Converts the error, attaching `path`.
    fn map_err_to_niter(self, path: &str) -> (r: Result<T, Error>)
        ensures
            self.niter_mapped(path@, r),
    ;
}

/// A raw cause string stands for a filesystem failure on the named path.
impl<T> MapErrToNiterExt<T> for Result<T, String> {
    open spec fn niter_mapped(self, path: Seq<char>, r: Result<T, Error>) -> bool {
        match self {
            Ok(t) => r == Ok::<T, Error>(t),
            Err(cause) => r matches Err(Error::IO(p, c)) && p@ == path && c == cause,
        }
    }

    fn map_err_to_niter(self, path: &str) -> (r: Result<T, Error>) {
        match self {
            Ok(t) => Ok(t),
            Err(cause) => Err(Error::IO(path.to_owned(), cause)),
        }
    }
}

} // verus!
