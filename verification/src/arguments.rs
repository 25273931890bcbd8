//! The command line: a torrent file or a magnet URI, at most one of them.
use crate::command::path_is_file;
use crate::magnet::{has_prefix, magnet_prefix, MagnetURIMeta};
use vstd::prelude::*;

verus! {

/// The sources given on the command line.
#[derive(Debug, Default)]
pub struct Arguments {
    /// Path to the torrent file to download.
    pub torrent_file: Option<String>,
    /// Magnet URI of the torrent to download.
    pub magnet_uri: Option<String>,
}

/// The torrent to start with.
#[derive(Debug, Clone, PartialEq, Eq)]
pub enum TorrentInput {
    FilePath(String),
    MagnetUri(String),
}

/// Why the command line was refused.
#[derive(Debug)]
pub enum ArgumentError {
    MultipleSources,
    InvalidTorrentFile(String),
    InvalidMagnetUri,
}

/// What the command line amounts to when, for a given torrent file, `file_exists` tells
/// whether that file is there.
pub open spec fn spec_source(
    torrent_file: Option<Seq<char>>,
    magnet_uri: Option<Seq<char>>,
    file_exists: bool,
) -> SourceOutcome {
    if torrent_file is Some && magnet_uri is Some {
        SourceOutcome::MultipleSources
    } else if torrent_file is Some {
        if file_exists {
            SourceOutcome::File(torrent_file->0)
        } else {
            SourceOutcome::InvalidTorrentFile(torrent_file->0)
        }
    } else if magnet_uri is Some {
        if has_prefix(magnet_uri->0, magnet_prefix()) {
            SourceOutcome::Magnet(magnet_uri->0)
        } else {
            SourceOutcome::InvalidMagnetUri
        }
    } else {
        SourceOutcome::NoSource
    }
}

/// The possible readings of a command line.
pub ghost enum SourceOutcome {
    NoSource,
    File(Seq<char>),
    Magnet(Seq<char>),
    MultipleSources,
    InvalidTorrentFile(Seq<char>),
    InvalidMagnetUri,
}

/// Whether `r` is what the outcome `o` describes.
pub open spec fn source_result_is(r: Result<Option<TorrentInput>, ArgumentError>, o: SourceOutcome) -> bool {
    match o {
        SourceOutcome::NoSource => r matches Ok(None),
        SourceOutcome::File(p) => r matches Ok(Some(TorrentInput::FilePath(q))) && q@ == p,
        SourceOutcome::Magnet(u) => r matches Ok(Some(TorrentInput::MagnetUri(q))) && q@ == u,
        SourceOutcome::MultipleSources => r matches Err(ArgumentError::MultipleSources),
        SourceOutcome::InvalidTorrentFile(p) => r matches Err(ArgumentError::InvalidTorrentFile(q))
            && q@ == p,
        SourceOutcome::InvalidMagnetUri => r matches Err(ArgumentError::InvalidMagnetUri),
    }
}

impl Arguments {
    /// Whether a torrent file was given (it is not checked).
    pub fn is_file_argument_provided(&self) -> (b: bool)
        ensures
            b == self.torrent_file is Some,
    {
        self.torrent_file.is_some()
    }

    /// Whether a magnet URI was given (it is not checked).
    pub fn is_magnet_uri_provided(&self) -> (b: bool)
        ensures
            b == self.magnet_uri is Some,
    {
        self.magnet_uri.is_some()
    }

    /// Whether both were given.
    pub fn is_both_argument_provided(&self) -> (b: bool)
        ensures
            b == (self.torrent_file is Some && self.magnet_uri is Some),
    {
        self.is_file_argument_provided() && self.is_magnet_uri_provided()
    }

    /// Whether neither was given.
    pub fn none_arguments_provided(&self) -> (b: bool)
        ensures
            b == (self.torrent_file is None && self.magnet_uri is None),
    {
        !(self.is_file_argument_provided() || self.is_magnet_uri_provided())
    }

    /// The torrent to start with: none, a torrent file that exists, or a magnet URI. Giving
    /// both is refused, and so are a missing file and a string that is not a magnet URI.
    /// Whether the file exists is asked of the file system.
    pub fn source(&self) -> (r: Result<Option<TorrentInput>, ArgumentError>)
        ensures
            exists|file_exists: bool|
                source_result_is(
                    r,
                    #[trigger] spec_source(
                        crate::magnet::opt_text(self.torrent_file),
                        crate::magnet::opt_text(self.magnet_uri),
                        file_exists,
                    ),
                ),
    {
        let file_exists = match &self.torrent_file {
            Some(path) => !self.is_both_argument_provided() && path_is_file(path.as_str()),
            None => false,
        };
        self.source_given(file_exists)
    }

    /// The torrent to start with, where `file_exists` tells whether the torrent file given,
    /// if any, is there.
    pub fn source_given(&self, file_exists: bool) -> (r: Result<Option<TorrentInput>, ArgumentError>)
        ensures
            source_result_is(
                r,
                spec_source(
                    crate::magnet::opt_text(self.torrent_file),
                    crate::magnet::opt_text(self.magnet_uri),
                    file_exists,
                ),
            ),
    {
        if self.is_both_argument_provided() {
            return Err(ArgumentError::MultipleSources);
        }
        if let Some(path) = &self.torrent_file {
            if !file_exists {
                return Err(ArgumentError::InvalidTorrentFile(path.clone()));
            }
            return Ok(Some(TorrentInput::FilePath(path.clone())));
        }
        if let Some(uri) = &self.magnet_uri {
            if !MagnetURIMeta::checkIfMagnetURIIsValid(uri.as_str()) {
                return Err(ArgumentError::InvalidMagnetUri);
            }
            return Ok(Some(TorrentInput::MagnetUri(uri.clone())));
        }
        Ok(None)
    }
}

} // verus!
