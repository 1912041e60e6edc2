use gitjobs::engine::{CompleteAction, Engine};
use gitjobs::keys::{CommitId, RepoPath};
use gitjobs::resources::{ResourceKey, ResourceKind, ResourceParams, ResourceValue};
use gitjobs::stash::{get_stashes, stash_apply, stash_pop, stash_save};
use gitjobs::tags::{delete_tag, get_tags, get_tags_with_metadata};

fn repo_init() -> (tempfile::TempDir, git2::Repository) {
    let td = tempfile::TempDir::new().unwrap();
    let repo = git2::Repository::init(td.path()).unwrap();
    {
        let mut config = repo.config().unwrap();
        config.set_str("user.name", "name").unwrap();
        config.set_str("user.email", "email").unwrap();
        let mut index = repo.index().unwrap();
        let id = index.write_tree().unwrap();
        let tree = repo.find_tree(id).unwrap();
        let sig = repo.signature().unwrap();
        repo.commit(Some("HEAD"), &sig, &sig, "initial", &tree, &[]).unwrap();
    }
    (td, repo)
}

fn path_of(repo: &git2::Repository) -> RepoPath {
    let root = repo.path().parent().unwrap();
    RepoPath::new(String::from(root.as_os_str().to_str().unwrap()))
}

// Writes a working-tree file through the repository itself: the content
// goes into a blob, a forced checkout of the index materializes it, and
// the index is then reset to HEAD so the change stays unstaged.
fn repo_write_file(repo: &git2::Repository, name: &str, content: &str) {
    let oid = repo.blob(content.as_bytes()).unwrap();
    let mut index = repo.index().unwrap();
    let entry = git2::IndexEntry {
        ctime: git2::IndexTime::new(0, 0),
        mtime: git2::IndexTime::new(0, 0),
        dev: 0,
        ino: 0,
        mode: 0o100_644,
        uid: 0,
        gid: 0,
        file_size: content.len() as u32,
        id: oid,
        flags: 0,
        flags_extended: 0,
        path: name.as_bytes().to_vec(),
    };
    index.add(&entry).unwrap();
    index.write().unwrap();
    let mut co = git2::build::CheckoutBuilder::new();
    co.force();
    co.update_index(false);
    co.path(name);
    repo.checkout_index(Some(&mut index), Some(&mut co)).unwrap();
    let head_tree = repo.head().unwrap().peel_to_tree().unwrap();
    index.read_tree(&head_tree).unwrap();
    index.write().unwrap();
}

// Reads a working-tree file back through the repository: the file is
// hashed into a blob and the blob's content returned.
fn repo_read_file(repo: &git2::Repository, name: &str) -> String {
    let root = repo.path().parent().unwrap();
    let oid = repo.blob_path(&root.join(name)).unwrap();
    let blob = repo.find_blob(oid).unwrap();
    String::from_utf8(blob.content().to_vec()).unwrap()
}

fn write_commit_file(repo: &git2::Repository, name: &str, content: &str, msg: &str) {
    repo_write_file(repo, name, content);
    let mut index = repo.index().unwrap();
    index.add_path(std::path::Path::new(name)).unwrap();
    index.write().unwrap();
    let tree_id = index.write_tree().unwrap();
    let tree = repo.find_tree(tree_id).unwrap();
    let sig = repo.signature().unwrap();
    let head = repo.head().unwrap().target().unwrap();
    let parent = repo.find_commit(head).unwrap();
    repo.commit(Some("HEAD"), &sig, &sig, msg, &tree, &[&parent]).unwrap();
}

#[test]
fn stash_test_smoke() {
    let (_td, repo) = repo_init();
    let repo_path = path_of(&repo);

    assert!(!stash_save(&repo_path, None, true, false).is_ok());

    assert!(get_stashes(&repo_path).unwrap().is_empty());
}

#[test]
fn test_stash_apply_conflict() {
    let (_td, repo) = repo_init();
    let repo_path = path_of(&repo);

    repo_write_file(&repo, "test.txt", "test");

    let id = stash_save(&repo_path, Some("foo"), true, false).unwrap();

    repo_write_file(&repo, "test.txt", "foo");

    let res = stash_apply(&repo_path, &id, false);

    assert!(res.is_err());
}

#[test]
fn test_stash_apply_conflict2() {
    let (_td, repo) = repo_init();
    let repo_path = path_of(&repo);

    write_commit_file(&repo, "test.txt", "test", "c1");

    repo_write_file(&repo, "test.txt", "test2");

    let id = stash_save(&repo_path, Some("foo"), true, false).unwrap();

    repo_write_file(&repo, "test.txt", "test3");

    let res = stash_apply(&repo_path, &id, false);

    assert!(res.is_err());
}

#[test]
fn test_stash_apply_creating_conflict() {
    let (_td, repo) = repo_init();
    let repo_path = path_of(&repo);

    write_commit_file(&repo, "test.txt", "test", "c1");

    repo_write_file(&repo, "test.txt", "test2");

    let id = stash_save(&repo_path, Some("foo"), true, false).unwrap();

    repo_write_file(&repo, "test.txt", "test3");

    let res = stash_apply(&repo_path, &id, false);

    assert!(res.is_err());

    let res = stash_apply(&repo_path, &id, true);

    assert!(res.is_ok());
}

#[test]
fn test_stash_pop_no_conflict() {
    let (_td, repo) = repo_init();
    let repo_path = path_of(&repo);

    write_commit_file(&repo, "test.txt", "test", "c1");

    repo_write_file(&repo, "test.txt", "test2");

    let id = stash_save(&repo_path, Some("foo"), true, false).unwrap();

    let res = stash_pop(&repo_path, &id);

    assert!(res.is_ok());
    assert_eq!(repo_read_file(&repo, "test.txt"), "test2");
}

#[test]
fn test_stash_pop_conflict() {
    let (_td, repo) = repo_init();
    let repo_path = path_of(&repo);

    repo_write_file(&repo, "test.txt", "test");

    let id = stash_save(&repo_path, Some("foo"), true, false).unwrap();

    repo_write_file(&repo, "test.txt", "test2");

    let res = stash_pop(&repo_path, &id);

    assert!(res.is_err());
    assert_eq!(repo_read_file(&repo, "test.txt"), "test2");
}

#[test]
fn test_stash_pop_conflict_after_commit() {
    let (_td, repo) = repo_init();
    let repo_path = path_of(&repo);

    write_commit_file(&repo, "test.txt", "test", "c1");

    repo_write_file(&repo, "test.txt", "test2");

    let id = stash_save(&repo_path, Some("foo"), true, false).unwrap();

    repo_write_file(&repo, "test.txt", "test3");

    let res = stash_pop(&repo_path, &id);

    assert!(res.is_err());
    assert_eq!(repo_read_file(&repo, "test.txt"), "test3");
}

#[test]
fn tags_test_smoke() {
    let (_td, repo) = repo_init();
    let repo_path = path_of(&repo);

    assert!(get_tags(&repo_path).unwrap().is_empty());
}

#[test]
fn test_multitags() {
    let (_td, repo) = repo_init();
    let repo_path = path_of(&repo);

    let sig = repo.signature().unwrap();
    let head_id = repo.head().unwrap().target().unwrap();
    let target = repo
        .find_object(repo.head().unwrap().target().unwrap(), Some(git2::ObjectType::Commit))
        .unwrap();

    repo.tag("a", &target, &sig, "", false).unwrap();
    repo.tag("b", &target, &sig, "", false).unwrap();

    let head_commit = CommitId::new(head_id.as_bytes().to_vec());
    let tags = get_tags(&repo_path).unwrap();
    assert_eq!(
        tags.get(&head_commit).unwrap().iter().map(|t| &t.name).collect::<Vec<_>>(),
        vec!["a", "b"]
    );

    let tags = get_tags_with_metadata(&repo_path).unwrap();

    assert_eq!(tags.len(), 2);
    assert_eq!(tags[0].name, "a");
    assert_eq!(tags[0].message, "initial");
    assert_eq!(tags[1].name, "b");
    assert_eq!(tags[1].message, "initial");
    assert!(tags[0].commit_id.same_id(&tags[1].commit_id));

    delete_tag(&repo_path, "a").unwrap();

    let tags = get_tags(&repo_path).unwrap();

    assert_eq!(tags.len(), 1);

    delete_tag(&repo_path, "b").unwrap();

    let tags = get_tags(&repo_path).unwrap();

    assert_eq!(tags.len(), 0);
}

#[test]
fn scenario_tags_on_fresh_repo_read_empty_success() {
    // Submitting a tags query against a repository without tags ends in a
    // successful read of an empty ordered listing.
    let (_td, repo) = repo_init();
    let repo_path = path_of(&repo);
    let mut engine = Engine::new();
    let k = ResourceKey::new(RepoPath::new(repo_path.path.clone()), ResourceKind::Tags);
    engine.submit(ResourceKey::new(RepoPath::new(repo_path.path.clone()), ResourceKind::Tags), ResourceParams::Tags);
    let ticket = engine.poll_dispatch().unwrap();
    let outcome = get_tags(&ticket.key.location).map(ResourceValue::Tags);
    assert_eq!(engine.complete(ticket, outcome), CompleteAction::Published);
    assert!(engine.take_wake());
    let read = engine.read(&k).unwrap();
    assert!(!read.1);
    match read.0 {
        Ok(ResourceValue::Tags(t)) => assert!(t.is_empty()),
        _ => panic!("expected an empty tag listing"),
    }
}

#[test]
fn scenario_stash_save_then_refresh_shows_one_more() {
    // A stash save done directly through the repository operations is
    // visible after one submit/refresh cycle: exactly one more entry, and
    // none predicted before the refresh completes.
    let (_td, repo) = repo_init();
    let repo_path = path_of(&repo);
    let mut engine = Engine::new();
    let k = ResourceKey::new(RepoPath::new(repo_path.path.clone()), ResourceKind::Stashes);

    engine.submit(
        ResourceKey::new(RepoPath::new(repo_path.path.clone()), ResourceKind::Stashes),
        ResourceParams::Stashes,
    );
    let ticket = engine.poll_dispatch().unwrap();
    let outcome = get_stashes(&ticket.key.location).map(ResourceValue::Stashes);
    engine.complete(ticket, outcome);
    let before = match engine.read(&k).unwrap().0 {
        Ok(ResourceValue::Stashes(v)) => v.len(),
        _ => panic!("expected a stash listing"),
    };
    assert_eq!(before, 0);

    // The mutation goes straight through the repository operations.
    repo_write_file(&repo, "foo.txt", "content");
    stash_save(&repo_path, Some("foo"), true, false).unwrap();

    // Before the refresh completes, the cache still shows the old count.
    engine.submit(
        ResourceKey::new(RepoPath::new(repo_path.path.clone()), ResourceKind::Stashes),
        ResourceParams::Stashes,
    );
    let ticket = engine.poll_dispatch().unwrap();
    let read = engine.read(&k).unwrap();
    assert!(read.1, "a refresh is in flight");
    match read.0 {
        Ok(ResourceValue::Stashes(v)) => assert_eq!(v.len(), 0, "no phantom entry"),
        _ => panic!("expected a stash listing"),
    }
    let outcome = get_stashes(&ticket.key.location).map(ResourceValue::Stashes);
    assert_eq!(engine.complete(ticket, outcome), CompleteAction::Published);
    let after = match engine.read(&k).unwrap().0 {
        Ok(ResourceValue::Stashes(v)) => v.len(),
        _ => panic!("expected a stash listing"),
    };
    assert_eq!(after, before + 1);
}

#[test]
fn workdir_clean_flips_with_changes() {
    let (_td, repo) = repo_init();
    let repo_path = path_of(&repo);

    assert!(gitjobs::status::is_workdir_clean(&repo_path, None).unwrap());

    repo_write_file(&repo, "foo.txt", "content");

    assert!(!gitjobs::status::is_workdir_clean(&repo_path, None).unwrap());
}

#[test]
fn workdir_status_reports_new_file() {
    let (_td, repo) = repo_init();
    let repo_path = path_of(&repo);

    repo_write_file(&repo, "foo.txt", "content");

    let items =
        gitjobs::status::get_status(&repo_path, gitjobs::status::StatusType::WorkingDir, None)
            .unwrap();
    assert_eq!(items.len(), 1);
    assert_eq!(items[0].path, "foo.txt");
    assert_eq!(items[0].status, gitjobs::status::StatusItemType::New);
}
