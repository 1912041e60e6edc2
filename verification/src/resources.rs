//! Resource identities: the closed set of queryable kinds, their
//! parameters and result values, and the key one job is filed under.

use vstd::prelude::*;
use crate::keys::{CommitId, RepoPath};
use crate::status::{ShowUntrackedFilesConfig, StatusItem, StatusType};
use crate::tags::Tags;

verus! {

/// The closed set of resource kinds the engine can be asked for.
#[derive(Copy, Clone, PartialEq, Eq, Structural, Hash, Debug)]
pub enum ResourceKind {
    Status,
    Diff,
    Log,
    Tags,
    Stashes,
    Blame,
}

/// The parameters one request carries, by kind.
#[derive(Debug)]
pub enum ResourceParams {
    /// which side to scan, and how untracked files enter the scan
    Status(StatusType, Option<ShowUntrackedFilesConfig>),
    /// the file the diff is asked for
    Diff(String),
    /// how many log entries are wanted
    Log(u64),
    Tags,
    Stashes,
    /// the file being blamed
    Blame(String),
}

/// Mathematical value of `ResourceParams`: strings become character
/// sequences so parameter equality is by content.
pub enum ParamsV {
    Status(StatusType, Option<ShowUntrackedFilesConfig>),
    Diff(Seq<char>),
    Log(u64),
    Tags,
    Stashes,
    Blame(Seq<char>),
}

pub open spec fn params_v(p: &ResourceParams) -> ParamsV {
    match p {
        ResourceParams::Status(t, u) => ParamsV::Status(*t, *u),
        ResourceParams::Diff(f) => ParamsV::Diff(f@),
        ResourceParams::Log(n) => ParamsV::Log(*n),
        ResourceParams::Tags => ParamsV::Tags,
        ResourceParams::Stashes => ParamsV::Stashes,
        ResourceParams::Blame(f) => ParamsV::Blame(f@),
    }
}

/// Copies parameter values; the copy has the same mathematical value.
pub fn duplicate_params(p: &ResourceParams) -> (r: ResourceParams)
    ensures
        params_v(&r) == params_v(p),
{
    match p {
        ResourceParams::Status(t, u) => ResourceParams::Status(*t, *u),
        ResourceParams::Diff(f) => ResourceParams::Diff(f.clone()),
        ResourceParams::Log(n) => ResourceParams::Log(*n),
        ResourceParams::Tags => ResourceParams::Tags,
        ResourceParams::Stashes => ResourceParams::Stashes,
        ResourceParams::Blame(f) => ResourceParams::Blame(f.clone()),
    }
}

/// A computed diff, as the engine carries it: the file it was asked for
/// and its rendered lines.
#[derive(Debug)]
pub struct FileDiff {
    pub file: String,
    pub lines: Vec<String>,
}

/// A computed blame, as the engine carries it.
#[derive(Debug)]
pub struct FileBlame {
    pub file: String,
    pub lines: Vec<String>,
}

/// The success value one job produces, by kind.
#[derive(Debug)]
pub enum ResourceValue {
    Status(Vec<StatusItem>),
    Diff(FileDiff),
    Log(Vec<CommitId>),
    Tags(Tags),
    Stashes(Vec<CommitId>),
    Blame(FileBlame),
}

/// Identifies one queryable resource instance: a repository location and
/// a kind. The parameters travel beside it and do not identify the key.
#[derive(Debug)]
pub struct ResourceKey {
    pub location: RepoPath,
    pub kind: ResourceKind,
}

/// Mathematical value of a key.
pub struct KeyV {
    pub location: Seq<char>,
    pub kind: ResourceKind,
}

impl View for ResourceKey {
    type V = KeyV;

    open spec fn view(&self) -> KeyV {
        KeyV { location: self.location@, kind: self.kind }
    }
}

impl ResourceKey {
    pub fn new(location: RepoPath, kind: ResourceKind) -> (r: ResourceKey)
        ensures
            r@ == (KeyV { location: location@, kind }),
    {
        ResourceKey { location, kind }
    }

    /// Whether the two keys name the same resource.
    pub fn key_eq(&self, other: &ResourceKey) -> (r: bool)
        ensures
            r == (self@ == other@),
    {
        let same_loc = self.location.same_location(&other.location);
        let same_kind = self.kind == other.kind;
        same_loc && same_kind
    }

    pub fn duplicate(&self) -> (r: ResourceKey)
        ensures
            r@ == self@,
    {
        ResourceKey { location: self.location.duplicate(), kind: self.kind }
    }
}

/// The per-kind request shapes: each fixes the key's kind and the form of
/// the parameters, so a caller cannot pair a kind with the wrong
/// parameters.
pub fn status_request(
    location: RepoPath,
    status_type: StatusType,
    untracked: Option<ShowUntrackedFilesConfig>,
) -> (r: (ResourceKey, ResourceParams))
    ensures
        r.0@ == (KeyV { location: location@, kind: ResourceKind::Status }),
        params_v(&r.1) == ParamsV::Status(status_type, untracked),
{
    (
        ResourceKey::new(location, ResourceKind::Status),
        ResourceParams::Status(status_type, untracked),
    )
}

pub fn diff_request(location: RepoPath, file: String) -> (r: (ResourceKey, ResourceParams))
    ensures
        r.0@ == (KeyV { location: location@, kind: ResourceKind::Diff }),
        params_v(&r.1) == ParamsV::Diff(file@),
{
    (ResourceKey::new(location, ResourceKind::Diff), ResourceParams::Diff(file))
}

pub fn log_request(location: RepoPath, limit: u64) -> (r: (ResourceKey, ResourceParams))
    ensures
        r.0@ == (KeyV { location: location@, kind: ResourceKind::Log }),
        params_v(&r.1) == ParamsV::Log(limit),
{
    (ResourceKey::new(location, ResourceKind::Log), ResourceParams::Log(limit))
}

pub fn tags_request(location: RepoPath) -> (r: (ResourceKey, ResourceParams))
    ensures
        r.0@ == (KeyV { location: location@, kind: ResourceKind::Tags }),
        params_v(&r.1) == ParamsV::Tags,
{
    (ResourceKey::new(location, ResourceKind::Tags), ResourceParams::Tags)
}

pub fn stashes_request(location: RepoPath) -> (r: (ResourceKey, ResourceParams))
    ensures
        r.0@ == (KeyV { location: location@, kind: ResourceKind::Stashes }),
        params_v(&r.1) == ParamsV::Stashes,
{
    (ResourceKey::new(location, ResourceKind::Stashes), ResourceParams::Stashes)
}

pub fn blame_request(location: RepoPath, file: String) -> (r: (ResourceKey, ResourceParams))
    ensures
        r.0@ == (KeyV { location: location@, kind: ResourceKind::Blame }),
        params_v(&r.1) == ParamsV::Blame(file@),
{
    (ResourceKey::new(location, ResourceKind::Blame), ResourceParams::Blame(file))
}

/// One dispatched job: the key it serves, the parameters it was started
/// with, and the generation captured at submit time, compared against the
/// key's live generation when the job completes.
#[derive(Debug)]
pub struct JobTicket {
    pub key: ResourceKey,
    pub params: ResourceParams,
    pub generation: u64,
}

} // verus!
