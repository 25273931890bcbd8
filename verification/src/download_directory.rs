//! The directory downloads are written to.
use vstd::prelude::*;

verus! {

/// Name of the default download directory under the home directory.
pub const DEFAULT_DOWNLOAD_DIRECTORY_NAME: &'static str = "hyperblow_downloads";

/// Why the download directory cannot be used.
#[derive(Debug)]
pub enum DownloadDirectoryError {
    MissingHome,
    NotDirectory(String),
    Create { path: String, source: std::io::Error },
}

/// The directory downloads are written to, as a path.
#[derive(Debug, Clone, PartialEq, Eq)]
pub struct DownloadDirectory {
    path: String,
}

impl View for DownloadDirectory {
    type V = Seq<char>;

    closed spec fn view(&self) -> Seq<char> {
        self.path@
    }
}

impl DownloadDirectory {
    /// The download directory at `path`.
    pub fn from_path(path: String) -> (d: Self)
        ensures
            d@ == path@,
    {
        DownloadDirectory { path }
    }

    /// The directory's path.
    pub fn path(&self) -> (p: &str)
        ensures
            p@ == self@,
    {
        self.path.as_str()
    }

    /// The directory's path, to be shown.
    pub fn display_path(&self) -> (s: String)
        ensures
            s@ == self@,
    {
        self.path.clone()
    }
}

} // verus!
