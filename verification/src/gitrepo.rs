//! The trusted boundary to the underlying repository library (git2) and
//! to UTF-8 decoding. Each item here makes one outside call and converts
//! its arguments and result to plain values; everything that decides or
//! computes stands in the verified modules around this one.

use vstd::prelude::*;
use crate::status::StatusType;

verus! {

#[verifier::external_type_specification]
#[verifier::external_body]
pub struct ExRepository(git2::Repository);

#[verifier::external_type_specification]
#[verifier::external_body]
pub struct ExGitError(git2::Error);

/// Relies on git2::Repository::open: opens the repository at the path.
#[verifier::external_body]
pub(crate) fn repo_open(path: &str) -> (r: Result<git2::Repository, git2::Error>) {
    git2::Repository::open(path)
}

/// Relies on git2::Error::message: the failure's text.
#[verifier::external_body]
pub(crate) fn git_error_text(e: &git2::Error) -> (r: String) {
    e.message().to_string()
}

/// Turns the repository library's error into this library's error value.
pub(crate) fn map_git_err(e: git2::Error) -> (r: crate::errors::OpError)
    ensures
        r is Git,
{
    crate::errors::OpError::Git(git_error_text(&e))
}

/// Relies on git2::Repository::is_bare.
#[verifier::external_body]
pub(crate) fn repo_is_bare(repo: &git2::Repository) -> (r: bool) {
    repo.is_bare()
}

/// Relies on git2::Repository::is_worktree.
#[verifier::external_body]
pub(crate) fn repo_is_worktree(repo: &git2::Repository) -> (r: bool) {
    repo.is_worktree()
}

/// Relies on git2::Repository::config and Config::get_string: the
/// repository's "status.showUntrackedFiles" configuration value, when set
/// and readable.
#[verifier::external_body]
pub(crate) fn repo_untracked_config_value(repo: &git2::Repository) -> (r: Option<String>) {
    repo.config().ok().and_then(|c| c.get_string("status.showUntrackedFiles").ok())
}

/// One raw record of the status scan, fields copied from the entry.
pub struct RawStatusEntry {
    /// the entry carries a head-to-index delta
    pub head_to_index: bool,
    /// that delta's new-file path, when it is representable text
    pub head_new_path: Option<String>,
    /// the entry's own path, when it is representable text
    pub path: Option<String>,
    /// the raw status bits
    pub bits: u32,
}

/// Relies on git2::Repository::statuses and the StatusEntry accessors:
/// one raw record per entry in the scan's order, fields copied; the
/// update-index and head-to-index-rename options are set as the status
/// listing asks for.
#[verifier::external_body]
pub(crate) fn repo_statuses_raw(
    repo: &git2::Repository,
    show: StatusType,
    include_untracked: bool,
    recurse_untracked: bool,
) -> (r: Result<Vec<RawStatusEntry>, git2::Error>) {
    let mut o = git2::StatusOptions::default();
    o.show(match show {
        StatusType::WorkingDir => git2::StatusShow::Workdir,
        StatusType::Stage => git2::StatusShow::Index,
        StatusType::Both => git2::StatusShow::IndexAndWorkdir,
    });
    o.update_index(true).include_untracked(include_untracked);
    o.renames_head_to_index(true).recurse_untracked_dirs(recurse_untracked);
    let st = repo.statuses(Some(&mut o))?;
    Ok(st.iter().map(|e| RawStatusEntry {
        head_to_index: e.head_to_index().is_some(),
        head_new_path: e.head_to_index().and_then(|d| d.new_file().path()).and_then(|p| p.to_str()).map(String::from),
        path: e.path().ok().map(String::from),
        bits: e.status().bits(),
    }).collect())
}

/// Relies on git2::Repository::tag_foreach: every tag ref's full name
/// bytes and the id it points at (20 bytes), in iteration order.
#[verifier::external_body]
pub(crate) fn repo_tag_refs_raw(repo: &git2::Repository) -> (r: Result<
    Vec<(Vec<u8>, Vec<u8>)>,
    git2::Error,
>)
    ensures
        match r {
            Ok(v) => forall|i: int| 0 <= i < v@.len() ==> (#[trigger] v@[i]).1@.len() == 20,
            Err(_) => true,
        },
{
    let mut out: Vec<(Vec<u8>, Vec<u8>)> = Vec::new();
    repo.tag_foreach(|id, name| {
        out.push((name.to_vec(), id.as_bytes().to_vec()));
        true
    })?;
    Ok(out)
}

/// Relies on git2::Repository::find_tag, Tag::target and
/// Object::peel_to_commit, with Repository::find_commit as the fallback:
/// the commit a tag ref's id resolves to — an annotated tag is peeled to
/// its target commit, a lightweight tag's id is the commit itself; None
/// when neither resolves to a commit.
#[verifier::external_body]
pub(crate) fn repo_tag_target_commit(repo: &git2::Repository, id: &Vec<u8>) -> (r: Result<
    Option<Vec<u8>>,
    git2::Error,
>)
    ensures
        match r {
            Ok(Some(b)) => b@.len() == 20,
            _ => true,
        },
{
    let oid = git2::Oid::from_bytes(id)?;
    let peeled = repo.find_tag(oid).and_then(|t| t.target()).and_then(|o| o.peel_to_commit());
    Ok(match peeled {
        Ok(c) => Some(c.id().as_bytes().to_vec()),
        Err(_) => {
            if repo.find_commit(oid).is_ok() {
                Some(id.clone())
            } else {
                None
            }
        },
    })
}

/// Relies on git2::Repository::find_tag and Tag::message_bytes: the raw
/// annotation bytes of an annotated tag; None for a lightweight tag or an
/// id that is no tag.
#[verifier::external_body]
pub(crate) fn repo_tag_message_raw(repo: &git2::Repository, id: &Vec<u8>) -> (r: Option<Vec<u8>>) {
    let oid = match git2::Oid::from_bytes(id) {
        Ok(o) => o,
        Err(_) => return None,
    };
    repo.find_tag(oid).ok().as_ref().and_then(git2::Tag::message_bytes).map(|m| m.to_vec())
}

/// Relies on git2::Repository::tag_delete.
#[verifier::external_body]
pub(crate) fn repo_tag_delete(repo: &git2::Repository, name: &str) -> (r: Result<
    (),
    git2::Error,
>) {
    repo.tag_delete(name)
}

/// Raw metadata of one commit, fields copied.
pub struct RawCommitInfo {
    /// the author's name, when it is representable text
    pub author: Option<String>,
    /// commit time, seconds since the epoch
    pub time: i64,
    /// the message's summary line, when it is representable text
    pub summary: Option<String>,
}

/// Relies on git2::Repository::find_commit and Commit::author, time and
/// summary: the commit's author name, time and summary line.
#[verifier::external_body]
pub(crate) fn repo_commit_info(repo: &git2::Repository, id: &Vec<u8>) -> (r: Result<
    RawCommitInfo,
    git2::Error,
>) {
    let oid = git2::Oid::from_bytes(id)?;
    let c = repo.find_commit(oid)?;
    let author = c.author().name().ok().map(String::from);
    let summary = c.summary().ok().flatten().map(String::from);
    Ok(RawCommitInfo { author, time: c.time().seconds(), summary })
}

/// Relies on git2::Repository::stash_foreach: the stash entries' commit
/// ids (20 bytes each), in the stash's own order, newest first.
///
/// Caveat: this git2 version converts each stash message for the callback
/// with a UTF-8 check that panics, before the callback runs; a repository
/// holding a stash whose message is not valid UTF-8 therefore aborts the
/// call inside git2 (the same abort the original has). The condition lives
/// in the repository's state and cannot be written over these arguments;
/// the process's job boundary catches the abort and turns it into an
/// internal failure value.
#[verifier::external_body]
pub(crate) fn repo_stash_ids(repo: &mut git2::Repository) -> (r: Result<Vec<Vec<u8>>, git2::Error>)
    ensures
        match r {
            Ok(v) => forall|i: int| 0 <= i < v@.len() ==> (#[trigger] v@[i])@.len() == 20,
            Err(_) => true,
        },
{
    let mut out: Vec<Vec<u8>> = Vec::new();
    repo.stash_foreach(|_idx, _msg, id| {
        out.push(id.as_bytes().to_vec());
        true
    })?;
    Ok(out)
}

/// Relies on git2::Repository::stash_drop.
#[verifier::external_body]
pub(crate) fn repo_stash_drop(repo: &mut git2::Repository, index: usize) -> (r: Result<
    (),
    git2::Error,
>) {
    repo.stash_drop(index)
}

/// Relies on git2::Repository::stash_pop, with default options.
#[verifier::external_body]
pub(crate) fn repo_stash_pop(repo: &mut git2::Repository, index: usize) -> (r: Result<
    (),
    git2::Error,
>) {
    repo.stash_pop(index, None)
}

/// Relies on git2::Repository::stash_apply, with checkout options that
/// allow conflicts when asked.
#[verifier::external_body]
pub(crate) fn repo_stash_apply(
    repo: &mut git2::Repository,
    index: usize,
    allow_conflicts: bool,
) -> (r: Result<(), git2::Error>) {
    let mut checkout = git2::build::CheckoutBuilder::new();
    checkout.allow_conflicts(allow_conflicts);
    let mut opt = git2::StashApplyOptions::default();
    opt.checkout_options(checkout);
    repo.stash_apply(index, Some(&mut opt))
}

/// Relies on git2::Repository::signature and stash_save2, with the
/// include-untracked and keep-index flags as asked: the new stash
/// commit's id (20 bytes).
#[verifier::external_body]
pub(crate) fn repo_stash_save(
    repo: &mut git2::Repository,
    message: Option<&str>,
    include_untracked: bool,
    keep_index: bool,
) -> (r: Result<Vec<u8>, git2::Error>)
    ensures
        match r {
            Ok(b) => b@.len() == 20,
            Err(_) => true,
        },
{
    let sig = repo.signature()?;
    let mut flags = git2::StashFlags::DEFAULT;
    if include_untracked {
        flags.insert(git2::StashFlags::INCLUDE_UNTRACKED);
    }
    if keep_index {
        flags.insert(git2::StashFlags::KEEP_INDEX);
    }
    let id = repo.stash_save2(&sig, message, Some(flags))?;
    Ok(id.as_bytes().to_vec())
}

/// Relies on String::from_utf8: succeeds exactly on valid UTF-8, and the
/// result's characters are the bytes' decoding.
#[verifier::external_body]
pub(crate) fn string_from_utf8(bytes: Vec<u8>) -> (r: Option<String>)
    ensures
        match r {
            Some(s) => vstd::utf8::valid_utf8(bytes@) && s@ == vstd::utf8::decode_utf8(bytes@),
            None => !vstd::utf8::valid_utf8(bytes@),
        },
{
    String::from_utf8(bytes).ok()
}

} // verus!
