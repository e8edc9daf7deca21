//! Values read from the telemetry source: track identities, analysis-file paths,
//! and the errors a read can end in.
use vstd::prelude::*;
use vstd::std_specs::cmp::PartialEqSpecImpl;
use crate::offsets::Pointer;

verus! {

/// Title, artist and album of the track loaded on a deck.
#[derive(Clone, Debug)]
pub struct TrackInfo {
    pub title: String,
    pub artist: String,
    pub album: String,
}

impl PartialEq for TrackInfo {
    fn eq(&self, other: &TrackInfo) -> (r: bool) {
        self.title == other.title && self.artist == other.artist && self.album == other.album
    }
}

impl PartialEqSpecImpl for TrackInfo {
    open spec fn obeys_eq_spec() -> bool {
        true
    }

    open spec fn eq_spec(&self, other: &TrackInfo) -> bool {
        &&& self.title@ == other.title@
        &&& self.artist@ == other.artist@
        &&& self.album@ == other.album@
    }
}

impl Default for TrackInfo {
    fn default() -> (r: TrackInfo)
        ensures
            r.title@ == Seq::<char>::empty(),
            r.artist@ == Seq::<char>::empty(),
            r.album@ == Seq::<char>::empty(),
    {
        TrackInfo { title: String::new(), artist: String::new(), album: String::new() }
    }
}

/// Path of the analysis data of the track loaded on a deck.
#[derive(Clone, Debug)]
pub struct AnlzFile {
    pub path: String,
}

impl PartialEq for AnlzFile {
    fn eq(&self, other: &AnlzFile) -> (r: bool) {
        self.path == other.path
    }
}

impl PartialEqSpecImpl for AnlzFile {
    open spec fn obeys_eq_spec() -> bool {
        true
    }

    open spec fn eq_spec(&self, other: &AnlzFile) -> bool {
        self.path@ == other.path@
    }
}

impl Default for AnlzFile {
    fn default() -> (r: AnlzFile)
        ensures
            r.path@ == Seq::<char>::empty(),
    {
        AnlzFile { path: String::new() }
    }
}

/// What went wrong in a read; the text carries the source's own detail.
#[derive(Clone, Debug)]
pub enum SourceError {
    ProcessNotFound,
    ModuleNotFound,
    SnapshotFailed(String),
    ReadMemoryFailed(String),
    WriteMemoryFailed(String),
}

impl PartialEq for SourceError {
    fn eq(&self, other: &SourceError) -> (r: bool) {
        match (self, other) {
            (SourceError::ProcessNotFound, SourceError::ProcessNotFound) => true,
            (SourceError::ModuleNotFound, SourceError::ModuleNotFound) => true,
            (SourceError::SnapshotFailed(a), SourceError::SnapshotFailed(b)) => *a == *b,
            (SourceError::ReadMemoryFailed(a), SourceError::ReadMemoryFailed(b)) => *a == *b,
            (SourceError::WriteMemoryFailed(a), SourceError::WriteMemoryFailed(b)) => *a == *b,
            _ => false,
        }
    }
}

impl PartialEqSpecImpl for SourceError {
    open spec fn obeys_eq_spec() -> bool {
        true
    }

    open spec fn eq_spec(&self, other: &SourceError) -> bool {
        same_source_error(*self, *other)
    }
}

/// Two source errors of the same kind with the same detail.
pub open spec fn same_source_error(a: SourceError, b: SourceError) -> bool {
        match (a, b) {
            (SourceError::ProcessNotFound, SourceError::ProcessNotFound) => true,
            (SourceError::ModuleNotFound, SourceError::ModuleNotFound) => true,
            (SourceError::SnapshotFailed(a), SourceError::SnapshotFailed(b)) => a@ == b@,
            (SourceError::ReadMemoryFailed(a), SourceError::ReadMemoryFailed(b)) => a@ == b@,
            (SourceError::WriteMemoryFailed(a), SourceError::WriteMemoryFailed(b)) => a@ == b@,
            _ => false,
        }
}

/// A failed read: what failed, at which address, and through which pointer chain.
#[derive(Clone, Debug)]
pub struct ReadError {
    pub pointer: Option<Pointer>,
    pub address: usize,
    pub error: SourceError,
}

impl PartialEq for ReadError {
    fn eq(&self, other: &ReadError) -> (r: bool) {
        let same_pointer = match (&self.pointer, &other.pointer) {
            (None, None) => true,
            (Some(a), Some(b)) => a == b,
            _ => false,
        };
        same_pointer && self.address == other.address && self.error == other.error
    }
}

impl PartialEqSpecImpl for ReadError {
    open spec fn obeys_eq_spec() -> bool {
        true
    }

    open spec fn eq_spec(&self, other: &ReadError) -> bool {
        &&& match (self.pointer, other.pointer) {
            (None, None) => true,
            (Some(a), Some(b)) => a.offsets@ == b.offsets@ && a.final_offset == b.final_offset,
            _ => false,
        }
        &&& self.address == other.address
        &&& same_source_error(self.error, other.error)
    }
}

} // verus!
