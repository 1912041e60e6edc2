//! Working-tree / index status: item types, the mapping from raw status
//! bits, and the sorted status listing.

use vstd::prelude::*;
use crate::errors::OpError;
use crate::gitrepo::{
    map_git_err, repo_is_bare, repo_is_worktree, repo_open, repo_statuses_raw,
    repo_untracked_config_value, RawStatusEntry,
};
use crate::keys::RepoPath;
use crate::order::bytes_le;
use vstd::multiset::Multiset;

verus! {

/// What happened to one file, as shown by the status scan.
#[derive(Copy, Clone, Hash, PartialEq, Eq, Structural, Debug)]
pub enum StatusItemType {
    New,
    Modified,
    Deleted,
    Renamed,
    Typechange,
    Conflicted,
}

/// Raw status bits, as the underlying library reports them: one bit per
/// index or working-tree change kind.
pub const STATUS_INDEX_NEW: u32 = 1;
pub const STATUS_INDEX_DELETED: u32 = 4;
pub const STATUS_INDEX_RENAMED: u32 = 8;
pub const STATUS_INDEX_TYPECHANGE: u32 = 16;
pub const STATUS_WT_NEW: u32 = 128;
pub const STATUS_WT_DELETED: u32 = 512;
pub const STATUS_WT_TYPECHANGE: u32 = 1024;
pub const STATUS_WT_RENAMED: u32 = 2048;
pub const STATUS_CONFLICTED: u32 = 32768;

/// The item type a set of raw status bits maps to: new, deleted, renamed
/// and typechange bits (index or working tree) take precedence in that
/// order, then the conflict bit; anything else counts as modified.
pub open spec fn item_type_of_bits(bits: u32) -> StatusItemType {
    if bits & STATUS_INDEX_NEW != 0 || bits & STATUS_WT_NEW != 0 {
        StatusItemType::New
    } else if bits & STATUS_INDEX_DELETED != 0 || bits & STATUS_WT_DELETED != 0 {
        StatusItemType::Deleted
    } else if bits & STATUS_INDEX_RENAMED != 0 || bits & STATUS_WT_RENAMED != 0 {
        StatusItemType::Renamed
    } else if bits & STATUS_INDEX_TYPECHANGE != 0 || bits & STATUS_WT_TYPECHANGE != 0 {
        StatusItemType::Typechange
    } else if bits & STATUS_CONFLICTED != 0 {
        StatusItemType::Conflicted
    } else {
        StatusItemType::Modified
    }
}

impl StatusItemType {
    /// Maps raw status bits to an item type.
    pub fn from_bits(bits: u32) -> (r: StatusItemType)
        ensures
            r == item_type_of_bits(bits),
    {
        if bits & STATUS_INDEX_NEW != 0 || bits & STATUS_WT_NEW != 0 {
            StatusItemType::New
        } else if bits & STATUS_INDEX_DELETED != 0 || bits & STATUS_WT_DELETED != 0 {
            StatusItemType::Deleted
        } else if bits & STATUS_INDEX_RENAMED != 0 || bits & STATUS_WT_RENAMED != 0 {
            StatusItemType::Renamed
        } else if bits & STATUS_INDEX_TYPECHANGE != 0 || bits & STATUS_WT_TYPECHANGE != 0 {
            StatusItemType::Typechange
        } else if bits & STATUS_CONFLICTED != 0 {
            StatusItemType::Conflicted
        } else {
            StatusItemType::Modified
        }
    }
}

/// One entry of a status listing: a path and what happened to it.
#[derive(Clone, Hash, PartialEq, Eq, Debug)]
pub struct StatusItem {
    pub path: String,
    pub status: StatusItemType,
}

/// Which side of the repository a status scan looks at.
#[derive(Copy, Clone, Hash, PartialEq, Eq, Structural, Debug)]
pub enum StatusType {
    WorkingDir,
    Stage,
    Both,
}

impl Default for StatusType {
    fn default() -> (r: Self)
        ensures
            r == StatusType::WorkingDir,
    {
        Self::WorkingDir
    }
}

/// How untracked files enter a status scan, as the repository's
/// configuration asks for them.
#[derive(Copy, Clone, PartialEq, Eq, Structural, Debug)]
pub enum ShowUntrackedFilesConfig {
    All,
    Normal,
    Off,
}

impl ShowUntrackedFilesConfig {
    pub fn include_untracked(self) -> (r: bool)
        ensures
            r == (self != ShowUntrackedFilesConfig::Off),
    {
        match self {
            ShowUntrackedFilesConfig::All => true,
            ShowUntrackedFilesConfig::Normal => true,
            ShowUntrackedFilesConfig::Off => false,
        }
    }

    pub fn recurse_untracked_dirs(self) -> (r: bool)
        ensures
            r == (self == ShowUntrackedFilesConfig::All),
    {
        match self {
            ShowUntrackedFilesConfig::All => true,
            ShowUntrackedFilesConfig::Normal => false,
            ShowUntrackedFilesConfig::Off => false,
        }
    }
}

/// The weight one path byte sorts by: the separator goes below every
/// other byte. Ordering whole paths by these weights agrees with ordering
/// them component by component (each component by bytes), as a path
/// comparison does: a name inside a directory follows the directory's own
/// name, never a sibling whose name merely extends it.
pub open spec fn path_order_byte(x: u8) -> u8 {
    if x == 0x2f {
        0
    } else {
        x
    }
}

/// The bytes a path is ordered by: its UTF-8 encoding, separator-weighted.
pub open spec fn path_order_bytes(path: Seq<char>) -> Seq<u8> {
    vstd::utf8::encode_utf8(path).map_values(|x: u8| path_order_byte(x))
}

/// A status listing is ordered by path, component before content.
pub open spec fn status_sorted(s: Seq<StatusItem>) -> bool {
    forall|i: int, j: int|
        0 <= i < j < s.len() ==> bytes_le(path_order_bytes(s[i].path@), path_order_bytes(s[j].path@))
}


/// How a raw config value selects the untracked-files mode: "no" hides
/// them, "normal" lists them without recursing into untracked directories,
/// anything else (or no setting) lists them all.
pub open spec fn untracked_of(v: Option<String>) -> ShowUntrackedFilesConfig {
    match v {
        Option::None => ShowUntrackedFilesConfig::All,
        Option::Some(s) => if s@ == "no"@ {
            ShowUntrackedFilesConfig::Off
        } else if s@ == "normal"@ {
            ShowUntrackedFilesConfig::Normal
        } else {
            ShowUntrackedFilesConfig::All
        },
    }
}

/// Maps the repository's configuration value to the untracked-files mode.
pub fn map_untracked_value(v: Option<String>) -> (r: ShowUntrackedFilesConfig)
    ensures
        r == untracked_of(v),
{
    match v {
        Option::None => ShowUntrackedFilesConfig::All,
        Option::Some(s) => {
            let no = "no".to_owned();
            let normal = "normal".to_owned();
            if s == no {
                ShowUntrackedFilesConfig::Off
            } else if s == normal {
                ShowUntrackedFilesConfig::Normal
            } else {
                ShowUntrackedFilesConfig::All
            }
        },
    }
}

/// The path a raw entry is listed under: the head-to-index delta's
/// new-file path when the entry carries such a delta, its own path
/// otherwise.
pub open spec fn raw_path_of(e: RawStatusEntry) -> Option<String> {
    if e.head_to_index {
        e.head_new_path
    } else {
        e.path
    }
}

/// The status item a raw entry maps to.
pub open spec fn item_of_raw(e: RawStatusEntry) -> StatusItem {
    match raw_path_of(e) {
        Option::Some(p) => StatusItem { path: p, status: item_type_of_bits(e.bits) },
        Option::None => vstd::pervasive::arbitrary(),
    }
}

/// Component-wise path order, executable form: compares the
/// separator-weighted bytes.
pub fn path_le(a: &String, b: &String) -> (r: bool)
    ensures
        r == bytes_le(path_order_bytes(a@), path_order_bytes(b@)),
{
    let sa = a.as_str().as_bytes();
    let sb = b.as_str().as_bytes();
    let ghost pa = path_order_bytes(a@);
    let ghost pb = path_order_bytes(b@);
    let a_len: usize = sa.len();
    let b_len: usize = sb.len();
    let mut i: usize = 0;
    proof {
        assert(pa.len() == a_len && pb.len() == b_len);
        assert(pa.skip(0) =~= pa);
        assert(pb.skip(0) =~= pb);
    }
    loop
        invariant
            i <= a_len,
            i <= b_len,
            a_len == pa.len(),
            b_len == pb.len(),
            sa@.len() == a_len,
            sb@.len() == b_len,
            pa == path_order_bytes(a@),
            pb == path_order_bytes(b@),
            sa@ == vstd::utf8::encode_utf8(a@),
            sb@ == vstd::utf8::encode_utf8(b@),
            bytes_le(pa, pb) == bytes_le(pa.skip(i as int), pb.skip(i as int)),
        decreases a_len - i,
    {
        if i == a_len {
            proof {
                assert(pa.skip(i as int).len() == 0);
            }
            return true;
        }
        if i == b_len {
            proof {
                assert(pb.skip(i as int).len() == 0);
                assert(pa.skip(i as int).len() > 0);
            }
            return false;
        }
        let xb = sa[i];
        let yb = sb[i];
        let x: u8 = if xb == 0x2f {
            0
        } else {
            xb
        };
        let y: u8 = if yb == 0x2f {
            0
        } else {
            yb
        };
        proof {
            assert(pa[i as int] == path_order_byte(sa@[i as int]));
            assert(pb[i as int] == path_order_byte(sb@[i as int]));
            assert(pa.skip(i as int)[0] == pa[i as int]);
            assert(pb.skip(i as int)[0] == pb[i as int]);
        }
        if x < y {
            return true;
        }
        if x > y {
            return false;
        }
        proof {
            assert(pa.skip(i as int).drop_first() =~= pa.skip(i + 1));
            assert(pb.skip(i as int).drop_first() =~= pb.skip(i + 1));
        }
        i = i + 1;
    }
}

/// Sorts status items by the bytes of their paths; the result holds
/// exactly the given items.
pub fn sort_status_items(v: Vec<StatusItem>) -> (r: Vec<StatusItem>)
    ensures
        status_sorted(r@),
        r@.to_multiset() == v@.to_multiset(),
{
    broadcast use vstd::seq_lib::group_to_multiset_ensures;

    let ghost all = v@;
    let mut rest = v;
    let mut out: Vec<StatusItem> = Vec::new();
    proof {
        assert(out@.to_multiset().add(rest@.to_multiset()) =~= all.to_multiset());
    }
    while rest.len() > 0
        invariant
            out@.to_multiset().add(rest@.to_multiset()) == all.to_multiset(),
            status_sorted(out@),
            forall|i: int, j: int|
                0 <= i < out@.len() && 0 <= j < rest@.len() ==> bytes_le(
                    path_order_bytes(out@[i].path@),
                    path_order_bytes(rest@[j].path@),
                ),
        decreases rest@.len(),
    {
        let n = rest.len();
        let mut m: usize = 0;
        let mut k: usize = 1;
        proof {
            crate::order::lemma_bytes_le_total(
                path_order_bytes(rest@[0].path@),
                path_order_bytes(rest@[0].path@),
            );
        }
        while k < n
            invariant
                n == rest@.len(),
                m < k <= n,
                forall|j: int|
                    0 <= j < k ==> bytes_le(
                        path_order_bytes(rest@[m as int].path@),
                        path_order_bytes(rest@[j].path@),
                    ),
            decreases n - k,
        {
            let smaller = path_le(&rest[k].path, &rest[m].path);
            let also_ge = path_le(&rest[m].path, &rest[k].path);
            if smaller && !also_ge {
                let ghost prev = m as int;
                m = k;
                proof {
                    assert forall|j: int|
                        0 <= j < k + 1 implies bytes_le(
                        path_order_bytes(rest@[m as int].path@),
                        path_order_bytes(rest@[j].path@),
                    ) by {
                        if j < k {
                            crate::order::lemma_bytes_le_trans(
                                path_order_bytes(rest@[m as int].path@),
                                path_order_bytes(rest@[prev].path@),
                                path_order_bytes(rest@[j].path@),
                            );
                        } else {
                            crate::order::lemma_bytes_le_total(
                                path_order_bytes(rest@[m as int].path@),
                                path_order_bytes(rest@[m as int].path@),
                            );
                        }
                    }
                }
            } else {
                proof {
                    if !smaller && !also_ge {
                        crate::order::lemma_bytes_le_total(
                            path_order_bytes(rest@[k as int].path@),
                            path_order_bytes(rest@[m as int].path@),
                        );
                    }
                    assert(bytes_le(path_order_bytes(rest@[m as int].path@), path_order_bytes(rest@[k as int].path@)));
                }
            }
            k = k + 1;
        }
        let ghost old_out = out@;
        let ghost old_rest = rest@;
        let x = rest.remove(m);
        out.push(x);
        proof {
            broadcast use vstd::multiset::group_multiset_axioms;

            assert(0 <= m < old_rest.len());
            assert(old_rest[m as int] == x);
            vstd::seq_lib::to_multiset_contains(old_rest, x);
            assert(old_rest.contains(x));
            assert(old_rest.to_multiset().count(x) > 0);
            vstd::seq_lib::to_multiset_remove(old_rest, m as int);
            vstd::seq_lib::to_multiset_build(old_out, x);
            assert(out@.to_multiset() =~= old_out.to_multiset().insert(x));
            assert(rest@.to_multiset() =~= old_rest.to_multiset().remove(x));
            assert(out@.to_multiset().add(rest@.to_multiset()) =~= old_out.to_multiset().add(
                old_rest.to_multiset(),
            ));
            assert forall|i: int, j: int|
                0 <= i < out@.len() && 0 <= j < rest@.len() implies bytes_le(
                path_order_bytes(out@[i].path@),
                path_order_bytes(rest@[j].path@),
            ) by {
                let jo: int = if j < m { j } else { j + 1 };
                assert(rest@[j] == old_rest[jo]);
                if i < out@.len() - 1 {
                    assert(out@[i] == old_out[i]);
                } else {
                    assert(out@[i] == x);
                    assert(bytes_le(path_order_bytes(x.path@), path_order_bytes(old_rest[jo].path@)));
                }
            }
            assert forall|i: int, j: int|
                0 <= i < j < out@.len() implies bytes_le(
                path_order_bytes(out@[i].path@),
                path_order_bytes(out@[j].path@),
            ) by {
                if j == out@.len() - 1 {
                    assert(bytes_le(path_order_bytes(old_out[i].path@), path_order_bytes(old_rest[m as int].path@)));
                }
            }
        }
    }
    proof {
        broadcast use vstd::multiset::group_multiset_axioms;

        vstd::seq_lib::to_multiset_len(rest@);
        assert(rest@.to_multiset() =~= Multiset::<StatusItem>::empty());
        assert(out@.to_multiset() =~= all.to_multiset());
    }
    out
}

/// Turns the raw records of one status scan into the sorted status
/// listing: each record's path is resolved (head-to-index delta first),
/// its bits become the item type, and the items are ordered by path
/// bytes. A record with no representable path is an error.
pub fn status_items_from_raw(raw: Vec<RawStatusEntry>) -> (r: Result<Vec<StatusItem>, OpError>)
    ensures
        match r {
            Ok(items) => {
                &&& status_sorted(items@)
                &&& items@.to_multiset() == raw@.map_values(
                    |e: RawStatusEntry| item_of_raw(e),
                ).to_multiset()
                &&& forall|i: int| 0 <= i < raw@.len() ==> raw_path_of(#[trigger] raw@[i]) is Some
            },
            Err(e) => {
                &&& exists|i: int|
                    0 <= i < raw@.len() && raw_path_of(#[trigger] raw@[i]) is None
                &&& e is Generic
            },
        },
{
    let ghost all = raw@;
    let mut rest = raw;
    let mut items: Vec<StatusItem> = Vec::new();
    let ghost mut done: Seq<RawStatusEntry> = Seq::empty();
    proof {
        assert(all =~= done + rest@);
    }
    while rest.len() > 0
        invariant
            all == raw@,
            all == done + rest@,
            items@.len() == done.len(),
            forall|i: int| 0 <= i < done.len() ==> items@[i] == item_of_raw(#[trigger] done[i]),
            forall|i: int| 0 <= i < done.len() ==> raw_path_of(#[trigger] done[i]) is Some,
        decreases rest@.len(),
    {
        let ghost old_done = done;
        let ghost old_rest = rest@;
        let e = rest.remove(0);
        proof {
            assert(old_rest[0] == e);
            assert(all[old_done.len() as int] == e);
        }
        let ghost snapshot = e;
        let path = if e.head_to_index {
            e.head_new_path
        } else {
            e.path
        };
        let p = match path {
            Option::Some(p) => p,
            Option::None => {
                proof {
                    assert(raw_path_of(snapshot) is None);
                    assert(all[old_done.len() as int] == snapshot);
                    assert(0 <= old_done.len() < all.len());
                    assert(exists|i: int|
                        0 <= i < all.len() && raw_path_of(#[trigger] all[i]) is None);
                }
                return Err(OpError::Generic("failed to get the entry's path".to_owned()));
            },
        };
        let item = StatusItem { path: p, status: StatusItemType::from_bits(e.bits) };
        items.push(item);
        proof {
            done = old_done.push(snapshot);
            assert(item == item_of_raw(snapshot));
            assert(all =~= done + rest@) by {
                assert(old_rest =~= seq![snapshot] + rest@);
            }
        }
    }
    proof {
        assert(done =~= all);
        assert(items@ =~= all.map_values(|e: RawStatusEntry| item_of_raw(e)));
    }
    Ok(sort_status_items(items))
}

/// Guarantees sorting: the listing of what changed, ordered by path. A
/// bare repository without a working tree has an empty listing.
pub fn get_status(
    repo_path: &RepoPath,
    status_type: StatusType,
    show_untracked: Option<ShowUntrackedFilesConfig>,
) -> (r: Result<Vec<StatusItem>, OpError>)
    ensures
        match r {
            Ok(items) => status_sorted(items@),
            // Generic arises exactly where a record has no representable
            // path; every repository failure comes back as Git.
            Err(e) => e is Git || e is Generic,
        },
{
    let repo = match repo_open(repo_path.path.as_str()) {
        Ok(r) => r,
        Err(e) => {
            return Err(map_git_err(e));
        },
    };
    if repo_is_bare(&repo) && !repo_is_worktree(&repo) {
        return Ok(Vec::new());
    }
    let cfg = match show_untracked {
        Option::Some(c) => c,
        Option::None => map_untracked_value(repo_untracked_config_value(&repo)),
    };
    let raw = match repo_statuses_raw(
        &repo,
        status_type,
        cfg.include_untracked(),
        cfg.recurse_untracked_dirs(),
    ) {
        Ok(v) => v,
        Err(e) => {
            return Err(map_git_err(e));
        },
    };
    status_items_from_raw(raw)
}

/// The cleanliness decision on what one working-dir scan handed back:
/// clean exactly when no record came back.
pub fn scan_shows_clean(raw: &Vec<RawStatusEntry>) -> (r: bool)
    ensures
        r == (raw@.len() == 0),
{
    raw.len() == 0
}

/// Whether the working tree has no changes to show: a bare repository
/// without a working tree counts as clean without a scan, otherwise the
/// working-dir scan must come back empty (`scan_shows_clean`).
pub fn is_workdir_clean(
    repo_path: &RepoPath,
    show_untracked: Option<ShowUntrackedFilesConfig>,
) -> (r: Result<bool, OpError>)
    ensures
        match r {
            Ok(_) => true,
            Err(e) => e is Git,
        },
{
    let repo = match repo_open(repo_path.path.as_str()) {
        Ok(r) => r,
        Err(e) => {
            return Err(map_git_err(e));
        },
    };
    if repo_is_bare(&repo) && !repo_is_worktree(&repo) {
        return Ok(true);
    }
    let cfg = match show_untracked {
        Option::Some(c) => c,
        Option::None => map_untracked_value(repo_untracked_config_value(&repo)),
    };
    let raw = match repo_statuses_raw(
        &repo,
        StatusType::WorkingDir,
        cfg.include_untracked(),
        cfg.recurse_untracked_dirs(),
    ) {
        Ok(v) => v,
        Err(e) => {
            return Err(map_git_err(e));
        },
    };
    Ok(scan_shows_clean(&raw))
}

} // verus!
