//! Tags: the tag value type, the map from target commit to its tags, and
//! tag metadata.

use vstd::prelude::*;
use crate::errors::OpError;
use crate::gitrepo::{
    map_git_err, repo_commit_info, repo_open, repo_tag_delete, repo_tag_message_raw,
    repo_tag_refs_raw, repo_tag_target_commit, RawCommitInfo,
};
use crate::keys::{CommitId, RepoPath};
use crate::order::{bytes_le, lemma_bytes_le_antisym, lemma_bytes_le_total, lemma_bytes_le_trans};
use vstd::string::StringSliceAdditionalSpecFns;

verus! {

/// One tag: its name and, for an annotated tag, its annotation text.
#[derive(Clone, Hash, PartialEq, Eq, Debug)]
pub struct Tag {
    /// tag name
    pub name: String,
    /// tag annotation
    pub annotation: Option<String>,
}

impl Tag {
    pub fn new(name: &str) -> (r: Self)
        ensures
            r.name@ == name@,
            r.annotation is None,
    {
        Self { name: name.to_owned(), annotation: None }
    }
}

/// All tags pointing to a single commit.
pub type CommitTags = Vec<Tag>;

/// Strict byte order on commit ids.
pub open spec fn id_lt(a: Seq<u8>, b: Seq<u8>) -> bool {
    bytes_le(a, b) && a != b
}

/// Map from tag target commit to the tags naming it, kept ordered by the
/// commit id's byte value, one slot per distinct commit.
#[derive(Debug)]
pub struct Tags {
    pub slots: Vec<(CommitId, CommitTags)>,
}

impl Tags {
    /// The slots are strictly ordered by commit id, so each id appears
    /// once, and a slot exists only for a commit some tag points at: no
    /// slot's tag list is empty.
    pub open spec fn well_formed(&self) -> bool {
        &&& forall|i: int, j: int|
            0 <= i < j < self.slots@.len() ==> id_lt(self.slots@[i].0@, self.slots@[j].0@)
        &&& forall|i: int| 0 <= i < self.slots@.len() ==> (#[trigger] self.slots@[i]).1@.len() > 0
    }

    pub open spec fn spec_len(&self) -> nat {
        self.slots@.len()
    }

    /// Whether some slot holds this commit id.
    pub open spec fn spec_has(&self, id: Seq<u8>) -> bool {
        exists|i: int| 0 <= i < self.slots@.len() && self.slots@[i].0@ == id
    }

    /// The slot index the commit id lives at, when it is present.
    pub open spec fn spec_index_of(&self, id: Seq<u8>) -> int {
        choose|i: int| 0 <= i < self.slots@.len() && self.slots@[i].0@ == id
    }

    /// The tags stored for this commit id.
    pub open spec fn spec_tags_of(&self, id: Seq<u8>) -> Seq<Tag> {
        self.slots@[self.spec_index_of(id)].1@
    }

    pub fn new() -> (r: Tags)
        ensures
            r.well_formed(),
            r.spec_len() == 0,
    {
        Tags { slots: Vec::new() }
    }

    pub fn len(&self) -> (r: usize)
        ensures
            r == self.spec_len(),
    {
        self.slots.len()
    }

    pub fn is_empty(&self) -> (r: bool)
        ensures
            r == (self.spec_len() == 0),
    {
        self.slots.len() == 0
    }

    /// Looks the commit id up; the listing never blocks and never changes
    /// the map.
    pub fn get(&self, id: &CommitId) -> (r: Option<&CommitTags>)
        requires
            self.well_formed(),
        ensures
            match r {
                Some(tags) => self.spec_has(id@) && tags@ == self.spec_tags_of(id@),
                None => !self.spec_has(id@),
            },
    {
        let n = self.slots.len();
        let mut i: usize = 0;
        while i < n
            invariant
                self.well_formed(),
                i <= n,
                n == self.slots@.len(),
                forall|j: int| 0 <= j < i ==> self.slots@[j].0@ != id@,
            decreases n - i,
        {
            if self.slots[i].0.same_id(id) {
                proof {
                    lemma_unique_index(self, i as int, id@);
                }
                return Some(&self.slots[i].1);
            }
            i = i + 1;
        }
        None
    }

    /// Adds one tag under its target commit: appended to the commit's slot
    /// if one exists, otherwise a new slot is made at the ordered position.
    /// Every other slot keeps its tags.
    pub fn add(&mut self, id: CommitId, tag: Tag)
        requires
            old(self).well_formed(),
        ensures
            final(self).well_formed(),
            final(self).spec_has(id@),
            old(self).spec_has(id@) ==> {
                &&& final(self).spec_len() == old(self).spec_len()
                &&& final(self).spec_tags_of(id@) == old(self).spec_tags_of(id@).push(tag)
            },
            !old(self).spec_has(id@) ==> {
                &&& final(self).spec_len() == old(self).spec_len() + 1
                &&& final(self).spec_tags_of(id@) =~= seq![tag]
            },
            forall|other: Seq<u8>|
                other != id@ ==> #[trigger] final(self).spec_has(other) == old(self).spec_has(other),
            forall|other: Seq<u8>|
                other != id@ && old(self).spec_has(other) ==> #[trigger] final(self).spec_tags_of(other)
                    == old(self).spec_tags_of(other),
    {
        let ghost old_slots = self.slots@;
        let n = self.slots.len();
        let mut i: usize = 0;
        while i < n
            invariant
                i <= n,
                n == self.slots@.len(),
                self.slots@ == old_slots,
                old_slots == old(self).slots@,
                forall|j: int| 0 <= j < i ==> id_lt(self.slots@[j].0@, id@),
                old(self).well_formed(),
            decreases n - i,
        {
            let le1 = self.slots[i].0.le(&id);
            let le2 = id.le(&self.slots[i].0);
            if le1 && le2 {
                proof {
                    lemma_bytes_le_antisym(self.slots@[i as int].0@, id@);
                }
                let mut pair = self.slots.remove(i);
                pair.1.push(tag);
                self.slots.insert(i, pair);
                proof {
                    assert(self.slots@ =~= old_slots.update(i as int, self.slots@[i as int]));
                    assert(self.slots@[i as int].0@ == id@);
                    assert(self.slots@[i as int].1@ == old_slots[i as int].1@.push(tag));
                    assert forall|p: int, q: int|
                        0 <= p < q < self.slots@.len() implies id_lt(
                        self.slots@[p].0@,
                        self.slots@[q].0@,
                    ) by {
                        assert(self.slots@[p].0 == old_slots[p].0);
                        assert(self.slots@[q].0 == old_slots[q].0);
                        assert(id_lt(old_slots[p].0@, old_slots[q].0@));
                    }
                    assert forall|p: int|
                        0 <= p < self.slots@.len() implies (#[trigger] self.slots@[p]).1@.len()
                        > 0 by {
                        if p != i as int {
                            assert(self.slots@[p] == old_slots[p]);
                        }
                    }
                    lemma_unique_index(old(self), i as int, id@);
                    lemma_unique_index(self, i as int, id@);
                    assert forall|other: Seq<u8>|
                        other != id@ implies #[trigger] self.spec_has(other) == old(self).spec_has(
                        other,
                    ) by {
                        lemma_same_keys_has(old(self), self, other);
                    }
                    assert forall|other: Seq<u8>|
                        other != id@ && old(self).spec_has(other) implies #[trigger] self
                        .spec_tags_of(other) == old(self).spec_tags_of(other) by {
                        let j = choose|j: int|
                            0 <= j < old_slots.len() && old_slots[j].0@ == other;
                        lemma_unique_index(old(self), j, other);
                        assert(self.slots@[j].0@ == other && self.slots@[j].1 == old_slots[j].1);
                        lemma_unique_index(self, j, other);
                    }
                }
                return ;
            }
            if le2 && !le1 {
                // id comes strictly before slot i: insert here.
                self.slots.insert(i, (id, vec![tag]));
                proof {
                    assert(self.slots@ =~= old_slots.insert(i as int, self.slots@[i as int]));
                    assert(self.slots@[i as int].0@ == id@);
                    assert(self.slots@[i as int].1@ =~= seq![tag]);
                    assert(forall|j: int| 0 <= j < i ==> self.slots@[j] == old_slots[j]);
                    assert(forall|j: int|
                        i < j < self.slots@.len() ==> self.slots@[j] == old_slots[j - 1]);
                    assert(!old(self).spec_has(id@)) by {
                        if old(self).spec_has(id@) {
                            let j = choose|j: int|
                                0 <= j < old_slots.len() && old_slots[j].0@ == id@;
                            if j < i {
                                assert(id_lt(old_slots[j].0@, id@));
                            } else {
                                assert(id_lt(old_slots[i as int].0@, old_slots[j].0@) || i == j);
                                assert(id_lt(id@, old_slots[i as int].0@));
                                if i < j {
                                    lemma_bytes_le_trans(id@, old_slots[i as int].0@, old_slots[j].0@);
                                    lemma_bytes_le_antisym(id@, old_slots[i as int].0@);
                                }
                            }
                        }
                    }
                    assert forall|p: int, q: int|
                        0 <= p < q < self.slots@.len() implies id_lt(
                        self.slots@[p].0@,
                        self.slots@[q].0@,
                    ) by {
                        if q < i {
                        } else if p < i && q == i {
                            assert(id_lt(old_slots[p].0@, id@));
                        } else if p < i && q > i {
                            assert(id_lt(old_slots[p].0@, old_slots[q - 1].0@) || p == q - 1);
                            if p == q - 1 {
                                assert(id_lt(old_slots[p].0@, id@));
                                assert(id_lt(id@, old_slots[i as int].0@));
                            }
                        } else if p == i {
                            assert(id_lt(id@, old_slots[i as int].0@));
                            assert(q - 1 >= i);
                            if q - 1 > i {
                                assert(id_lt(old_slots[i as int].0@, old_slots[q - 1].0@));
                                lemma_bytes_le_trans(id@, old_slots[i as int].0@, old_slots[q - 1].0@);
                                if id@ == old_slots[q - 1].0@ {
                                    lemma_bytes_le_antisym(id@, old_slots[i as int].0@);
                                }
                            }
                        } else {
                            assert(id_lt(old_slots[p - 1].0@, old_slots[q - 1].0@));
                        }
                    }
                    lemma_unique_index(self, i as int, id@);
                    assert forall|other: Seq<u8>|
                        other != id@ implies #[trigger] self.spec_has(other) == old(self).spec_has(
                        other,
                    ) by {
                        lemma_insert_has(old_slots, self.slots@, i as int, other);
                    }
                    assert forall|other: Seq<u8>|
                        other != id@ && old(self).spec_has(other) implies #[trigger] self
                        .spec_tags_of(other) == old(self).spec_tags_of(other) by {
                        let j = choose|j: int|
                            0 <= j < old_slots.len() && old_slots[j].0@ == other;
                        lemma_unique_index(old(self), j, other);
                        let jn: int = if j < i { j } else { j + 1 };
                        assert(self.slots@[jn] == old_slots[j]);
                        lemma_unique_index(self, jn, other);
                    }
                }
                return ;
            }
            proof {
                if !le1 && !le2 {
                    lemma_bytes_le_total(self.slots@[i as int].0@, id@);
                }
                assert(id_lt(self.slots@[i as int].0@, id@));
            }
            i = i + 1;
        }
        self.slots.push((id, vec![tag]));
        proof {
            assert(self.slots@.len() == old_slots.len() + 1);
            assert(self.slots@[n as int].0@ == id@);
            assert(self.slots@[n as int].1@ =~= seq![tag]);
            assert(forall|j: int| 0 <= j < n ==> self.slots@[j] == old_slots[j]);
            assert(!old(self).spec_has(id@)) by {
                if old(self).spec_has(id@) {
                    let j = choose|j: int| 0 <= j < old_slots.len() && old_slots[j].0@ == id@;
                    assert(id_lt(old_slots[j].0@, id@));
                }
            }
            assert forall|p: int, q: int|
                0 <= p < q < self.slots@.len() implies id_lt(self.slots@[p].0@, self.slots@[q].0@) by {
                if q < n {
                    assert(id_lt(old_slots[p].0@, old_slots[q].0@));
                } else {
                    assert(id_lt(old_slots[p].0@, id@));
                }
            }
            lemma_unique_index(self, n as int, id@);
            assert forall|other: Seq<u8>|
                other != id@ implies #[trigger] self.spec_has(other) == old(self).spec_has(
                other,
            ) by {
                if old(self).spec_has(other) {
                    let j = choose|j: int| 0 <= j < old_slots.len() && old_slots[j].0@ == other;
                    assert(self.slots@[j].0@ == other);
                }
                if self.spec_has(other) {
                    let j = choose|j: int|
                        0 <= j < self.slots@.len() && self.slots@[j].0@ == other;
                    assert(j != n);
                    assert(old_slots[j].0@ == other);
                }
            }
            assert forall|other: Seq<u8>|
                other != id@ && old(self).spec_has(other) implies #[trigger] self.spec_tags_of(
                other,
            ) == old(self).spec_tags_of(other) by {
                let j = choose|j: int| 0 <= j < old_slots.len() && old_slots[j].0@ == other;
                lemma_unique_index(old(self), j, other);
                assert(self.slots@[j].0@ == other);
                lemma_unique_index(self, j, other);
            }
        }
    }
}

/// In a well-formed map an id names exactly one slot.
proof fn lemma_unique_index(t: &Tags, at: int, id: Seq<u8>)
    requires
        t.well_formed(),
        0 <= at < t.slots@.len(),
        t.slots@[at].0@ == id,
    ensures
        t.spec_has(id),
        t.spec_tags_of(id) == t.slots@[at].1@,
{
    assert(t.spec_has(id));
    let i = t.spec_index_of(id);
    assert(0 <= i < t.slots@.len() && t.slots@[i].0@ == id);
    if i < at {
        assert(id_lt(t.slots@[i].0@, t.slots@[at].0@));
        assert(false);
    }
    if i > at {
        assert(id_lt(t.slots@[at].0@, t.slots@[i].0@));
        assert(false);
    }
    assert(t.spec_tags_of(id) == t.slots@[i].1@);
}

/// Two maps over slot lists with the same keys agree on membership.
proof fn lemma_same_keys_has(a: &Tags, b: &Tags, id: Seq<u8>)
    requires
        a.slots@.len() == b.slots@.len(),
        forall|j: int| 0 <= j < a.slots@.len() ==> a.slots@[j].0@ == b.slots@[j].0@,
    ensures
        a.spec_has(id) == b.spec_has(id),
{
    if a.spec_has(id) {
        let j = choose|j: int| 0 <= j < a.slots@.len() && a.slots@[j].0@ == id;
        assert(b.slots@[j].0@ == id);
    }
    if b.spec_has(id) {
        let j = choose|j: int| 0 <= j < b.slots@.len() && b.slots@[j].0@ == id;
        assert(a.slots@[j].0@ == id);
    }
}

/// Insertion at `i` leaves membership of every other id as it was.
proof fn lemma_insert_has(old_slots: Seq<(CommitId, CommitTags)>, new_slots: Seq<(CommitId, CommitTags)>, i: int, other: Seq<u8>)
    requires
        0 <= i < new_slots.len(),
        new_slots.len() == old_slots.len() + 1,
        forall|j: int| 0 <= j < i ==> new_slots[j] == old_slots[j],
        forall|j: int| i < j < new_slots.len() ==> new_slots[j] == old_slots[j - 1],
        other != new_slots[i].0@,
    ensures
        (exists|j: int| 0 <= j < new_slots.len() && new_slots[j].0@ == other) == (exists|j: int|
            0 <= j < old_slots.len() && old_slots[j].0@ == other),
{
    if exists|j: int| 0 <= j < new_slots.len() && new_slots[j].0@ == other {
        let j = choose|j: int| 0 <= j < new_slots.len() && new_slots[j].0@ == other;
        if j < i {
            assert(old_slots[j].0@ == other);
        } else {
            assert(old_slots[j - 1].0@ == other);
        }
    }
    if exists|j: int| 0 <= j < old_slots.len() && old_slots[j].0@ == other {
        let j = choose|j: int| 0 <= j < old_slots.len() && old_slots[j].0@ == other;
        if j < i {
            assert(new_slots[j].0@ == other);
        } else {
            assert(new_slots[j + 1].0@ == other);
        }
    }
}

/// One tag joined with the metadata of the commit it points to.
#[derive(Debug)]
pub struct TagWithMetadata {
    pub name: String,
    pub author: String,
    pub time: i64,
    pub message: String,
    pub commit_id: CommitId,
    pub annotation: Option<String>,
}


/// A tag ref's full name starts with the tag namespace prefix.
pub open spec fn is_tag_ref(name: Seq<u8>) -> bool {
    name.len() >= "refs/tags/".spec_bytes().len() && name.take(
        "refs/tags/".spec_bytes().len() as int,
    ) == "refs/tags/".spec_bytes()
}

/// The tag's own name: the ref name with the namespace prefix stripped.
pub open spec fn tag_leaf(name: Seq<u8>) -> Seq<u8> {
    name.skip("refs/tags/".spec_bytes().len() as int)
}

/// Strips the tag namespace prefix from a ref name and decodes the rest:
/// the tag's name when the ref is a well-formed tag ref with a textual
/// name, None otherwise.
pub fn extract_tag_name(name: &Vec<u8>) -> (r: Option<String>)
    ensures
        match r {
            Some(s) => is_tag_ref(name@) && vstd::utf8::valid_utf8(tag_leaf(name@)) && s@
                == vstd::utf8::decode_utf8(tag_leaf(name@)),
            None => !(is_tag_ref(name@) && vstd::utf8::valid_utf8(tag_leaf(name@))),
        },
{
    let prefix: &[u8] = "refs/tags/".as_bytes();
    let plen = prefix.len();
    if name.len() < plen {
        return Option::None;
    }
    let mut i: usize = 0;
    while i < plen
        invariant
            i <= plen,
            plen == "refs/tags/".spec_bytes().len(),
            prefix@ == "refs/tags/".spec_bytes(),
            name@.len() >= plen,
            forall|j: int| 0 <= j < i ==> name@[j] == prefix@[j],
        decreases plen - i,
    {
        if name[i] != prefix[i] {
            proof {
                assert(name@.take(plen as int)[i as int] != "refs/tags/".spec_bytes()[i as int]);
            }
            return Option::None;
        }
        i = i + 1;
    }
    proof {
        assert(name@.take(plen as int) =~= prefix@);
    }
    let mut rest: Vec<u8> = Vec::new();
    let mut j = plen;
    let n = name.len();
    while j < n
        invariant
            plen <= j <= n,
            n == name@.len(),
            rest@ =~= name@.subrange(plen as int, j as int),
        decreases n - j,
    {
        rest.push(name[j]);
        proof {
            assert(rest@ =~= name@.subrange(plen as int, j + 1));
        }
        j = j + 1;
    }
    proof {
        assert(rest@ =~= tag_leaf(name@));
    }
    crate::gitrepo::string_from_utf8(rest)
}

/// An annotation is kept only when the tag carries a non-empty textual
/// message.
pub fn annotation_of(msg: Option<Vec<u8>>) -> (r: Option<String>)
    ensures
        match r {
            Some(s) => match msg {
                Some(m) => m@.len() > 0 && vstd::utf8::valid_utf8(m@) && s@
                    == vstd::utf8::decode_utf8(m@),
                None => false,
            },
            None => match msg {
                None => true,
                Some(m) => m@.len() == 0 || !vstd::utf8::valid_utf8(m@),
            },
        },
{
    match msg {
        Option::None => Option::None,
        Option::Some(m) => {
            if m.len() == 0 {
                Option::None
            } else {
                crate::gitrepo::string_from_utf8(m)
            }
        },
    }
}

/// Lists every tag in the repository, grouped under the commit each tag
/// points to, the groups ordered by commit id. An annotated tag is peeled
/// to its target commit and keeps its non-empty annotation; a lightweight
/// tag points at its commit directly; a ref that resolves to no commit is
/// skipped. A tag ref without the tag namespace prefix or with a
/// non-textual name is an error.
pub fn get_tags(repo_path: &RepoPath) -> (r: Result<Tags, OpError>)
    ensures
        match r {
            Ok(t) => t.well_formed(),
            // Generic arises exactly on a malformed tag ref name; every
            // repository failure comes back as Git.
            Err(e) => e is Git || e is Generic,
        },
{
    let repo = match repo_open(repo_path.path.as_str()) {
        Ok(r) => r,
        Err(e) => {
            return Err(map_git_err(e));
        },
    };
    let mut refs = match repo_tag_refs_raw(&repo) {
        Ok(v) => v,
        Err(e) => {
            return Err(map_git_err(e));
        },
    };
    let mut res = Tags::new();
    while refs.len() > 0
        invariant
            res.well_formed(),
            forall|i: int| 0 <= i < refs@.len() ==> (#[trigger] refs@[i]).1@.len() == 20,
        decreases refs@.len(),
    {
        let pair = refs.remove(0);
        let name = match extract_tag_name(&pair.0) {
            Option::Some(n) => n,
            Option::None => {
                return Err(OpError::Generic("invalid tag ref name".to_owned()));
            },
        };
        let target = match repo_tag_target_commit(&repo, &pair.1) {
            Ok(t) => t,
            Err(e) => {
                return Err(map_git_err(e));
            },
        };
        match target {
            Option::Some(commit_bytes) => {
                let annotation = annotation_of(repo_tag_message_raw(&repo, &pair.1));
                res.add(CommitId::new(commit_bytes), Tag { name, annotation });
            },
            Option::None => {},
        }
    }
    Ok(res)
}

/// Widest message kept when joining tag metadata.
pub const MAX_MESSAGE_WIDTH: usize = 100;

/// Cuts a message down to the given number of characters.
pub fn truncated_message(s: &str, limit: usize) -> (r: String)
    ensures
        r@ == if s@.len() <= limit {
            s@
        } else {
            s@.take(limit as int)
        },
{
    let n = s.unicode_len();
    if n <= limit {
        s.to_owned()
    } else {
        let cut = s.substring_char(0, limit);
        proof {
            assert(cut@ =~= s@.take(limit as int));
        }
        cut.to_owned()
    }
}

/// The author text a commit's metadata yields: the name when it is
/// representable, empty otherwise.
pub open spec fn info_author(info: RawCommitInfo) -> Seq<char> {
    match info.author {
        Option::Some(a) => a@,
        Option::None => Seq::empty(),
    }
}

/// The message text a commit's metadata yields: the summary line cut to
/// the message width, empty when it is not representable.
pub open spec fn info_message(info: RawCommitInfo) -> Seq<char> {
    match info.summary {
        Option::Some(m) => if m@.len() <= MAX_MESSAGE_WIDTH {
            m@
        } else {
            m@.take(MAX_MESSAGE_WIDTH as int)
        },
        Option::None => Seq::empty(),
    }
}

pub open spec fn opt_text(o: Option<String>) -> Option<Seq<char>> {
    match o {
        Option::Some(s) => Option::Some(s@),
        Option::None => Option::<Seq<char>>::None,
    }
}

/// Mathematical value of one metadata row.
pub struct TagMetaV {
    pub name: Seq<char>,
    pub author: Seq<char>,
    pub time: i64,
    pub message: Seq<char>,
    pub commit: Seq<u8>,
    pub annotation: Option<Seq<char>>,
}

pub open spec fn meta_v(t: TagWithMetadata) -> TagMetaV {
    TagMetaV {
        name: t.name@,
        author: t.author@,
        time: t.time,
        message: t.message@,
        commit: t.commit_id@,
        annotation: opt_text(t.annotation),
    }
}

/// The rows one commit slot's tags produce under that commit's metadata.
pub open spec fn slot_rows_v(tags: Seq<Tag>, commit: Seq<u8>, info: RawCommitInfo) -> Seq<
    TagMetaV,
> {
    Seq::new(
        tags.len(),
        |i: int|
            TagMetaV {
                name: tags[i].name@,
                author: info_author(info),
                time: info.time,
                message: info_message(info),
                commit: commit,
                annotation: opt_text(tags[i].annotation),
            },
    )
}

/// Joins one commit slot's tags with that commit's metadata: one row per
/// tag, in the slot's order — each row carries the tag's name and
/// annotation unchanged, the commit's id, and the author, time and message
/// fixed from the metadata.
pub fn slot_rows(tags: Vec<Tag>, commit: &CommitId, info: &RawCommitInfo) -> (r: Vec<
    TagWithMetadata,
>)
    ensures
        r@.len() == tags@.len(),
        forall|i: int|
            0 <= i < r@.len() ==> meta_v(#[trigger] r@[i]) == slot_rows_v(tags@, commit@, *info)[i],
{
    let author = match &info.author {
        Option::Some(a) => a.clone(),
        Option::None => String::new(),
    };
    let message = match &info.summary {
        Option::Some(m) => truncated_message(m.as_str(), MAX_MESSAGE_WIDTH),
        Option::None => String::new(),
    };
    let ghost all = tags@;
    let mut rest = tags;
    let mut out: Vec<TagWithMetadata> = Vec::new();
    while rest.len() > 0
        invariant
            all == tags@,
            out@.len() + rest@.len() == all.len(),
            forall|i: int| 0 <= i < rest@.len() ==> #[trigger] rest@[i] == all[out@.len() + i],
            author@ == info_author(*info),
            message@ == info_message(*info),
            forall|i: int|
                0 <= i < out@.len() ==> meta_v(#[trigger] out@[i]) == slot_rows_v(
                    all,
                    commit@,
                    *info,
                )[i],
        decreases rest@.len(),
    {
        let ghost at = out@.len() as int;
        let t = rest.remove(0);
        proof {
            assert(t == all[at]);
        }
        out.push(
            TagWithMetadata {
                name: t.name,
                author: author.clone(),
                time: info.time,
                message: message.clone(),
                commit_id: commit.duplicate(),
                annotation: t.annotation,
            },
        );
        proof {
            assert(meta_v(out@[at]) == slot_rows_v(all, commit@, *info)[at]);
        }
    }
    out
}

/// Metadata listings are ordered newest first.
pub open spec fn times_descending(s: Seq<TagWithMetadata>) -> bool {
    forall|i: int, j: int| 0 <= i < j < s.len() ==> s[j].time <= s[i].time
}

/// Sorts tag metadata by commit time, newest first; the result holds
/// exactly the given records.
pub fn sort_tags_by_time(v: Vec<TagWithMetadata>) -> (r: Vec<TagWithMetadata>)
    ensures
        times_descending(r@),
        r@.to_multiset() == v@.to_multiset(),
{
    let ghost all = v@;
    let mut rest = v;
    let mut out: Vec<TagWithMetadata> = Vec::new();
    proof {
        broadcast use vstd::multiset::group_multiset_axioms;

        vstd::seq_lib::to_multiset_len(out@);
        assert(out@.to_multiset() =~= vstd::multiset::Multiset::<TagWithMetadata>::empty());
        assert(out@.to_multiset().add(rest@.to_multiset()) =~= all.to_multiset());
    }
    while rest.len() > 0
        invariant
            out@.to_multiset().add(rest@.to_multiset()) == all.to_multiset(),
            times_descending(out@),
            forall|i: int, j: int|
                0 <= i < out@.len() && 0 <= j < rest@.len() ==> rest@[j].time <= out@[i].time,
        decreases rest@.len(),
    {
        let n = rest.len();
        let mut m: usize = 0;
        let mut k: usize = 1;
        while k < n
            invariant
                n == rest@.len(),
                m < k <= n,
                forall|j: int| 0 <= j < k ==> rest@[j].time <= rest@[m as int].time,
            decreases n - k,
        {
            if rest[k].time > rest[m].time {
                m = k;
            }
            k = k + 1;
        }
        let ghost old_out = out@;
        let ghost old_rest = rest@;
        let x = rest.remove(m);
        out.push(x);
        proof {
            broadcast use vstd::multiset::group_multiset_axioms;

            assert(0 <= m < old_rest.len());
            assert(old_rest[m as int] == x);
            vstd::seq_lib::to_multiset_contains(old_rest, x);
            vstd::seq_lib::to_multiset_remove(old_rest, m as int);
            vstd::seq_lib::to_multiset_build(old_out, x);
            assert(out@.to_multiset().add(rest@.to_multiset()) =~= old_out.to_multiset().add(
                old_rest.to_multiset(),
            ));
            assert forall|i: int, j: int|
                0 <= i < out@.len() && 0 <= j < rest@.len() implies rest@[j].time
                <= out@[i].time by {
                let jo: int = if j < m { j } else { j + 1 };
                assert(rest@[j] == old_rest[jo]);
            }
        }
    }
    proof {
        broadcast use vstd::multiset::group_multiset_axioms;

        vstd::seq_lib::to_multiset_len(rest@);
        assert(rest@.to_multiset() =~= vstd::multiset::Multiset::<TagWithMetadata>::empty());
        assert(out@.to_multiset() =~= all.to_multiset());
    }
    out
}

/// Joins every tag with its target commit's metadata (author, time,
/// summary line cut to the message width) and lists them newest first. A
/// commit whose metadata cannot be read is skipped with its tags.
pub fn get_tags_with_metadata(repo_path: &RepoPath) -> (r: Result<Vec<TagWithMetadata>, OpError>)
    ensures
        match r {
            Ok(v) => times_descending(v@),
            Err(e) => e is Git || e is Generic,
        },
{
    let tags = match get_tags(repo_path) {
        Ok(t) => t,
        Err(e) => {
            return Err(e);
        },
    };
    let repo = match repo_open(repo_path.path.as_str()) {
        Ok(r) => r,
        Err(e) => {
            return Err(map_git_err(e));
        },
    };
    // The joined rows are the concatenation of one block per slot whose
    // commit metadata resolves; `expected` records that concatenation.
    let mut out: Vec<TagWithMetadata> = Vec::new();
    let ghost mut expected: Seq<TagMetaV> = Seq::empty();
    let mut slots = tags.slots;
    while slots.len() > 0
        invariant
            out@.len() == expected.len(),
            forall|i: int| 0 <= i < out@.len() ==> meta_v(#[trigger] out@[i]) == expected[i],
        decreases slots@.len(),
    {
        let slot = slots.remove(0);
        let commit = slot.0;
        let info = match repo_commit_info(&repo, &commit.bytes) {
            Ok(i) => Option::Some(i),
            Err(_) => Option::None,
        };
        match info {
            Option::Some(ci) => {
                let ghost slot_tags = slot.1@;
                let ghost before = expected;
                let mut rows = slot_rows(slot.1, &commit, &ci);
                proof {
                    expected = before + slot_rows_v(slot_tags, commit@, ci);
                }
                let ghost out_before = out@;
                out.append(&mut rows);
                proof {
                    assert forall|i: int|
                        0 <= i < out@.len() implies meta_v(#[trigger] out@[i]) == expected[i] by {
                        if i < out_before.len() {
                            assert(out@[i] == out_before[i]);
                            assert(expected[i] == before[i]);
                        }
                    }
                }
            },
            Option::None => {},
        }
    }
    Ok(sort_tags_by_time(out))
}

/// Deletes the named tag.
pub fn delete_tag(repo_path: &RepoPath, tag_name: &str) -> (r: Result<(), OpError>)
    ensures
        match r {
            Ok(_) => true,
            Err(e) => e is Git,
        },
{
    let repo = match repo_open(repo_path.path.as_str()) {
        Ok(r) => r,
        Err(e) => {
            return Err(map_git_err(e));
        },
    };
    match repo_tag_delete(&repo, tag_name) {
        Ok(_) => Ok(()),
        Err(e) => Err(map_git_err(e)),
    }
}

} // verus!
