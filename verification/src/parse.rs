use vstd::prelude::*;

verus! {

/// Failure marker: the main descriptor file is absent.
#[derive(Debug)]
pub struct MainFileNotFound;

impl MainFileNotFound {
    /// The human-readable description of this failure.
    pub fn describe(&self) -> (r: String)
        ensures
            r@ == "could not find 'niter.json'"@,
    {
        String::from_str("could not find 'niter.json'")
    }
}

/// Failure marker: a path that should name a directory names something else.
#[derive(Debug)]
pub struct NotADirectory;

impl NotADirectory {
    /// The human-readable description of this failure.
    pub fn describe(&self) -> (r: String)
        ensures
            r@ == "not a directory"@,
    {
        String::from_str("not a directory")
    }
}

/// Failure marker: a manifest declares a format tag this build does not
/// support; carries the declared tag.
#[derive(Debug)]
pub struct UnsupportedFormat(pub String);

impl UnsupportedFormat {
    /// The human-readable description of this failure.
    pub fn describe(&self) -> (r: String)
        ensures
            r@ == "format '"@ + self.0@ + "' is not supported"@,
    {
        let mut s = String::from_str("format '");
        s.append(self.0.as_str());
        s.append("' is not supported");
        s
    }
}

} // verus!
