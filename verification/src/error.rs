//! What can go wrong while an installer is built.

use crate::mirror::{sums_url, sums_url_text};
use vstd::prelude::*;

verus! {

/// A reason why the build stops.
#[derive(Debug, Clone, Copy, PartialEq, Eq, Structural)]
pub enum BuildError {
    /// The preseed configuration is not there.
    PreseedMissing,
    /// The image that was named is not there.
    IsoMissing,
    /// `xorriso` could not be started.
    XorrisoMissing,
    /// `xorriso` ran and reported a failure.
    XorrisoFailed,
    /// The mirror did not say how long the image is.
    NoContentLength,
    /// The mirror's list of checksums names no fitting image.
    NoIsoListed,
    /// The image holds no initial RAM disk at a known place.
    InitrdNotFound,
    /// The preseed configuration is too large for an archive entry.
    PreseedTooLarge,
    /// The archive with the preseed configuration could not be made.
    ArchiveFailed,
    /// The new image could not be written.
    RepackFailed,
}

/// What a user is told of an error. Where a file is missing, its path is to follow.
pub open spec fn message_text(e: BuildError) -> Seq<char> {
    match e {
        BuildError::PreseedMissing => "Preseed file not found at"@,
        BuildError::IsoMissing => "Provided ISO path does not exist"@,
        BuildError::XorrisoMissing =>
            "Failed to execute xorriso. Is it installed? (Try: apt install xorriso)"@,
        BuildError::XorrisoFailed => "xorriso command failed."@,
        BuildError::NoContentLength => "Failed to get content length from response"@,
        BuildError::NoIsoListed =>
            "Could not determine the latest stable ISO filename from "@ + sums_url_text(),
        BuildError::InitrdNotFound =>
            "Failed to extract initrd.gz from ISO. Is this a valid Debian installer ISO?"@,
        BuildError::PreseedTooLarge => "trying to write more than the specified file size"@,
        BuildError::ArchiveFailed => "Failed to archive the preseed file"@,
        BuildError::RepackFailed => "Failed to repack ISO with xorriso"@,
    }
}

impl BuildError {
    /// What a user is told of the error.
    pub fn message(&self) -> (r: String)
        ensures
            r@ == message_text(*self),
    {
        let text = match self {
            BuildError::PreseedMissing => "Preseed file not found at",
            BuildError::IsoMissing => "Provided ISO path does not exist",
            BuildError::XorrisoMissing =>
                "Failed to execute xorriso. Is it installed? (Try: apt install xorriso)",
            BuildError::XorrisoFailed => "xorriso command failed.",
            BuildError::NoContentLength => "Failed to get content length from response",
            BuildError::NoIsoListed => "Could not determine the latest stable ISO filename from ",
            BuildError::InitrdNotFound =>
                "Failed to extract initrd.gz from ISO. Is this a valid Debian installer ISO?",
            BuildError::PreseedTooLarge => "trying to write more than the specified file size",
            BuildError::ArchiveFailed => "Failed to archive the preseed file",
            BuildError::RepackFailed => "Failed to repack ISO with xorriso",
        };
        let mut out = text.to_owned();
        if let BuildError::NoIsoListed = self {
            out.append(sums_url().as_str());
        }
        out
    }
}

} // verus!
