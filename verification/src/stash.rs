//! Stashes: listing, the index lookup a stash id resolves to, and the
//! save / apply / pop / drop operations.

use vstd::prelude::*;
use crate::errors::OpError;
use crate::gitrepo::{
    map_git_err, repo_open, repo_stash_apply, repo_stash_drop, repo_stash_ids, repo_stash_pop,
    repo_stash_save,
};
use crate::keys::{CommitId, RepoPath};

verus! {

/// Turns the raw id bytes of the stash listing into commit ids.
fn stash_ids_to_commits(raw: Vec<Vec<u8>>) -> (r: Vec<CommitId>)
    requires
        forall|i: int| 0 <= i < raw@.len() ==> (#[trigger] raw@[i])@.len() == 20,
    ensures
        r@.len() == raw@.len(),
        forall|i: int| 0 <= i < r@.len() ==> (#[trigger] r@[i]).well_formed(),
        forall|i: int| 0 <= i < r@.len() ==> (#[trigger] r@[i])@ == raw@[i]@,
{
    let ghost all = raw@;
    let mut rest = raw;
    let mut out: Vec<CommitId> = Vec::new();
    while rest.len() > 0
        invariant
            all == raw@,
            out@.len() + rest@.len() == all.len(),
            forall|i: int| 0 <= i < rest@.len() ==> (#[trigger] rest@[i])@ == all[out@.len() + i]@,
            forall|i: int| 0 <= i < rest@.len() ==> (#[trigger] rest@[i])@.len() == 20,
            forall|i: int| 0 <= i < out@.len() ==> (#[trigger] out@[i]).well_formed(),
            forall|i: int| 0 <= i < out@.len() ==> (#[trigger] out@[i])@ == all[i]@,
        decreases rest@.len(),
    {
        let b = rest.remove(0);
        out.push(CommitId::new(b));
    }
    out
}

/// Lists the stash entries' commit ids, newest first, in the stash's own
/// order.
pub fn get_stashes(repo_path: &RepoPath) -> (r: Result<Vec<CommitId>, OpError>)
    ensures
        match r {
            Ok(v) => forall|i: int| 0 <= i < v@.len() ==> (#[trigger] v@[i]).well_formed(),
            Err(e) => e is Git,
        },
{
    let mut repo = match repo_open(repo_path.path.as_str()) {
        Ok(r) => r,
        Err(e) => {
            return Err(map_git_err(e));
        },
    };
    let raw = match repo_stash_ids(&mut repo) {
        Ok(v) => v,
        Err(e) => {
            return Err(map_git_err(e));
        },
    };
    Ok(stash_ids_to_commits(raw))
}

/// Finds the position a stash commit sits at in the listing: the first
/// index whose id matches. When no entry matches, the stash commit is not
/// in the listing and the lookup fails.
pub fn get_stash_index(ids: &Vec<CommitId>, stash_id: &CommitId) -> (r: Result<usize, OpError>)
    ensures
        match r {
            Ok(i) => i < ids@.len() && (#[trigger] ids@[i as int])@ == stash_id@ && forall|j: int|
                0 <= j < i ==> (#[trigger] ids@[j])@ != stash_id@,
            Err(e) => (forall|j: int| 0 <= j < ids@.len() ==> (#[trigger] ids@[j])@ != stash_id@)
                && e is Generic,
        },
{
    let n = ids.len();
    let mut i: usize = 0;
    while i < n
        invariant
            i <= n,
            n == ids@.len(),
            forall|j: int| 0 <= j < i ==> (#[trigger] ids@[j])@ != stash_id@,
        decreases n - i,
    {
        if ids[i].same_id(stash_id) {
            return Ok(i);
        }
        i = i + 1;
    }
    Err(OpError::Generic("stash commit not found".to_owned()))
}

/// Resolves a stash commit to its current index in the given repository.
fn stash_index_in_repo(repo: &mut git2::Repository, stash_id: &CommitId) -> (r: Result<
    usize,
    OpError,
>)
    ensures
        match r {
            Ok(_) => true,
            // Generic: the given stash commit is not in the listing;
            // Git: the listing itself could not be read.
            Err(e) => e is Generic || e is Git,
        },
{
    let raw = match repo_stash_ids(repo) {
        Ok(v) => v,
        Err(e) => {
            return Err(map_git_err(e));
        },
    };
    let ids = stash_ids_to_commits(raw);
    get_stash_index(&ids, stash_id)
}

/// Drops the stash entry whose commit id is given.
pub fn stash_drop(repo_path: &RepoPath, stash_id: &CommitId) -> (r: Result<(), OpError>)
    ensures
        match r {
            Ok(_) => true,
            // Generic arises exactly where the id lookup fails; every
            // repository failure comes back as Git.
            Err(e) => e is Generic || e is Git,
        },
{
    let mut repo = match repo_open(repo_path.path.as_str()) {
        Ok(r) => r,
        Err(e) => {
            return Err(map_git_err(e));
        },
    };
    let index = match stash_index_in_repo(&mut repo, stash_id) {
        Ok(i) => i,
        Err(e) => {
            return Err(e);
        },
    };
    match repo_stash_drop(&mut repo, index) {
        Ok(_) => Ok(()),
        Err(e) => Err(map_git_err(e)),
    }
}

/// Pops (applies and drops) the stash entry whose commit id is given.
pub fn stash_pop(repo_path: &RepoPath, stash_id: &CommitId) -> (r: Result<(), OpError>)
    ensures
        match r {
            Ok(_) => true,
            // Generic arises exactly where the id lookup fails; every
            // repository failure comes back as Git.
            Err(e) => e is Generic || e is Git,
        },
{
    let mut repo = match repo_open(repo_path.path.as_str()) {
        Ok(r) => r,
        Err(e) => {
            return Err(map_git_err(e));
        },
    };
    let index = match stash_index_in_repo(&mut repo, stash_id) {
        Ok(i) => i,
        Err(e) => {
            return Err(e);
        },
    };
    match repo_stash_pop(&mut repo, index) {
        Ok(_) => Ok(()),
        Err(e) => Err(map_git_err(e)),
    }
}

/// Applies the stash entry whose commit id is given, optionally allowing
/// conflicts in the checkout.
pub fn stash_apply(repo_path: &RepoPath, stash_id: &CommitId, allow_conflicts: bool) -> (r: Result<
    (),
    OpError,
>)
    ensures
        match r {
            Ok(_) => true,
            // Generic arises exactly where the id lookup fails; every
            // repository failure comes back as Git.
            Err(e) => e is Generic || e is Git,
        },
{
    let mut repo = match repo_open(repo_path.path.as_str()) {
        Ok(r) => r,
        Err(e) => {
            return Err(map_git_err(e));
        },
    };
    let index = match stash_index_in_repo(&mut repo, stash_id) {
        Ok(i) => i,
        Err(e) => {
            return Err(e);
        },
    };
    match repo_stash_apply(&mut repo, index, allow_conflicts) {
        Ok(_) => Ok(()),
        Err(e) => Err(map_git_err(e)),
    }
}

/// Saves the working tree into a new stash entry and returns its commit
/// id.
pub fn stash_save(
    repo_path: &RepoPath,
    message: Option<&str>,
    include_untracked: bool,
    keep_index: bool,
) -> (r: Result<CommitId, OpError>)
    ensures
        match r {
            Ok(c) => c.well_formed(),
            Err(e) => e is Git,
        },
{
    let mut repo = match repo_open(repo_path.path.as_str()) {
        Ok(r) => r,
        Err(e) => {
            return Err(map_git_err(e));
        },
    };
    match repo_stash_save(&mut repo, message, include_untracked, keep_index) {
        Ok(b) => Ok(CommitId::new(b)),
        Err(e) => Err(map_git_err(e)),
    }
}

} // verus!
