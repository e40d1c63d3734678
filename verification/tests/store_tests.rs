use caching_content_store::entry::CachedContent;
use caching_content_store::error::{EncodingError, InvalidTagError, IoError, IoErrorKind, StoreError};
use caching_content_store::fs::{FsReply, FsRequest};
use caching_content_store::memory::MemoryDir;
use caching_content_store::record::serialize;
use caching_content_store::store::{CachingContentStore, Outcome, Pending, Step};
use caching_content_store::time::TimeSpan;

fn run(dir: &mut MemoryDir, first: Step, now: TimeSpan) -> Result<Outcome, StoreError> {
    let mut step = first;
    let mut requests = 0;
    loop {
        match step {
            Step::Finished(result) => return result,
            Step::Perform { request, pending } => {
                requests += 1;
                assert!(requests <= 2);
                let reply = dir.perform(&request);
                step = pending.resume(reply, now);
            }
        }
    }
}

fn entry(content: &str, lifetime: Option<u64>, at: u64) -> CachedContent<Vec<u8>> {
    CachedContent::stamped(
        content.as_bytes().to_vec(),
        lifetime.map(TimeSpan::from_secs),
        TimeSpan::from_secs(at),
    )
}

fn put(dir: &mut MemoryDir, tag: &str, e: &CachedContent<Vec<u8>>) -> Result<Outcome, StoreError> {
    let store = CachingContentStore::init("cache");
    run(dir, store.store(tag, e), TimeSpan::zero())
}

fn get(dir: &mut MemoryDir, tag: &str, at: u64) -> Result<Outcome, StoreError> {
    let store = CachingContentStore::init("cache");
    run(dir, store.get(tag), TimeSpan::from_secs(at))
}

fn delete(dir: &mut MemoryDir, tag: &str) -> Result<Outcome, StoreError> {
    let store = CachingContentStore::init("cache");
    run(dir, store.delete(tag), TimeSpan::zero())
}

fn tags(dir: &mut MemoryDir) -> Vec<String> {
    let store = CachingContentStore::init("cache");
    match run(dir, store.list_tags(), TimeSpan::zero()) {
        Ok(Outcome::Tags(mut tags)) => {
            tags.sort();
            tags
        }
        other => panic!("listing ended with {:?}", other),
    }
}

fn found(content: &str) -> Result<Outcome, StoreError> {
    Ok(Outcome::Content(Some(content.as_bytes().to_vec())))
}

fn nothing() -> Result<Outcome, StoreError> {
    Ok(Outcome::Content(None))
}

fn failure(kind: IoErrorKind) -> IoError {
    IoError { kind, detail: "told by the test".to_string() }
}

#[test]
fn init_keeps_the_base_path() {
    assert_eq!(CachingContentStore::init("/var/cache/x").base_path(), "/var/cache/x");
    assert_eq!(CachingContentStore::init(".").base_path(), ".");
}

#[test]
fn get_returns_what_was_put() {
    let mut dir = MemoryDir::new();
    assert_eq!(put(&mut dir, "t", &entry("payload", None, 50)), Ok(Outcome::Stored));
    assert_eq!(get(&mut dir, "t", 50), found("payload"));
    assert_eq!(get(&mut dir, "t", u64::MAX), found("payload"));
    assert_eq!(get(&mut dir, "t", 0), found("payload"));
}

#[test]
fn entry_with_lifetime_is_found_until_it_expires() {
    let mut dir = MemoryDir::new();
    assert_eq!(put(&mut dir, "t", &entry("p", Some(10), 1000)), Ok(Outcome::Stored));
    assert_eq!(get(&mut dir, "t", 1000), found("p"));
    assert_eq!(get(&mut dir, "t", 1009), found("p"));
    assert_eq!(get(&mut dir, "t", 1010), nothing());
}

#[test]
fn get_of_a_tag_never_written_finds_nothing() {
    let mut dir = MemoryDir::new();
    assert_eq!(get(&mut dir, "missing", 1), nothing());
    assert_eq!(put(&mut dir, "other", &entry("x", None, 1)), Ok(Outcome::Stored));
    assert_eq!(get(&mut dir, "missing", 1), nothing());
    assert_eq!(get(&mut dir, "othe", 1), nothing());
    assert_eq!(get(&mut dir, "Other", 1), nothing());
}

#[test]
fn second_put_replaces_the_first() {
    let mut dir = MemoryDir::new();
    assert_eq!(put(&mut dir, "t", &entry("first", None, 1)), Ok(Outcome::Stored));
    assert_eq!(put(&mut dir, "t", &entry("second", None, 2)), Ok(Outcome::Stored));
    assert_eq!(get(&mut dir, "t", 3), found("second"));
    assert_eq!(tags(&mut dir), vec!["t".to_string()]);
}

#[test]
fn delete_then_get_finds_nothing() {
    let mut dir = MemoryDir::new();
    assert_eq!(put(&mut dir, "t", &entry("x", None, 1)), Ok(Outcome::Stored));
    assert_eq!(delete(&mut dir, "t"), Ok(Outcome::Deleted));
    assert_eq!(get(&mut dir, "t", 1), nothing());
}

#[test]
fn delete_of_a_tag_never_written_is_no_error() {
    let mut dir = MemoryDir::new();
    assert_eq!(delete(&mut dir, "t"), Ok(Outcome::Deleted));
    assert_eq!(put(&mut dir, "u", &entry("x", None, 1)), Ok(Outcome::Stored));
    assert_eq!(delete(&mut dir, "t"), Ok(Outcome::Deleted));
    assert_eq!(delete(&mut dir, "t"), Ok(Outcome::Deleted));
    assert_eq!(get(&mut dir, "u", 1), found("x"));
}

#[test]
fn foo_is_found_within_its_hundred_seconds_and_not_after() {
    let mut dir = MemoryDir::new();
    let store = CachingContentStore::init("cache");
    let e = entry("hi there", Some(100), 5000);
    assert_eq!(run(&mut dir, store.store("foo", &e), TimeSpan::from_secs(5000)), Ok(Outcome::Stored));
    assert_eq!(dir.perform(&FsRequest::ListDir), FsReply::Names(vec!["foo".to_string()]));
    assert_eq!(
        dir.perform(&FsRequest::ReadFile { name: "foo".to_string() }),
        FsReply::Contents(serialize("foo", &e))
    );
    assert_eq!(get(&mut dir, "foo", 5000), found("hi there"));
    assert_eq!(get(&mut dir, "foo", 5099), found("hi there"));
    assert_eq!(get(&mut dir, "foo", 5100), nothing());
    assert_eq!(get(&mut dir, "foo", 5101), nothing());
}

#[test]
fn an_expired_entry_is_removed_when_it_is_looked_up() {
    let mut dir = MemoryDir::new();
    assert_eq!(put(&mut dir, "foo", &entry("hi there", Some(100), 5000)), Ok(Outcome::Stored));
    assert_eq!(tags(&mut dir), vec!["foo".to_string()]);
    assert_eq!(get(&mut dir, "foo", 6000), nothing());
    assert_eq!(tags(&mut dir), Vec::<String>::new());
    assert_eq!(get(&mut dir, "foo", 5000), nothing());
}

#[test]
fn traversal_tag_is_rejected_before_any_request() {
    let store = CachingContentStore::init("cache");
    let refused = Step::Finished(Err(StoreError::InvalidTag(InvalidTagError::ForbiddenCharacter)));
    assert_eq!(store.store("../etc/passwd", &entry("x", None, 1)), refused);
    assert_eq!(store.get("../etc/passwd"), refused);
    assert_eq!(store.delete("../etc/passwd"), refused);
    let mut dir = MemoryDir::new();
    assert_eq!(
        put(&mut dir, "../etc/passwd", &entry("x", None, 1)),
        Err(StoreError::InvalidTag(InvalidTagError::ForbiddenCharacter))
    );
    assert_eq!(
        dir.perform(&FsRequest::ListDir),
        FsReply::Failed(IoError { kind: IoErrorKind::NotFound, detail: "not found".to_string() })
    );
}

#[test]
fn each_kind_of_bad_tag_is_rejected() {
    let store = CachingContentStore::init("cache");
    assert_eq!(
        store.get(""),
        Step::Finished(Err(StoreError::InvalidTag(InvalidTagError::Empty)))
    );
    assert_eq!(
        store.delete("a..b"),
        Step::Finished(Err(StoreError::InvalidTag(InvalidTagError::ParentReference)))
    );
    assert_eq!(
        store.store("a\0", &entry("x", None, 1)),
        Step::Finished(Err(StoreError::InvalidTag(InvalidTagError::ForbiddenCharacter)))
    );
}

#[test]
fn list_tags_after_three_puts_and_one_delete() {
    let mut dir = MemoryDir::new();
    for tag in ["a", "b", "c"] {
        assert_eq!(put(&mut dir, tag, &entry(tag, None, 1)), Ok(Outcome::Stored));
    }
    assert_eq!(tags(&mut dir), vec!["a".to_string(), "b".to_string(), "c".to_string()]);
    assert_eq!(delete(&mut dir, "b"), Ok(Outcome::Deleted));
    assert_eq!(tags(&mut dir), vec!["a".to_string(), "c".to_string()]);
}

#[test]
fn list_tags_of_a_directory_never_made_is_empty() {
    let mut dir = MemoryDir::new();
    assert_eq!(tags(&mut dir), Vec::<String>::new());
}

#[test]
fn list_tags_gives_the_tags_not_the_file_names_and_skips_other_files() {
    let mut dir = MemoryDir::new();
    assert_eq!(put(&mut dir, "Foo Bar", &entry("x", None, 1)), Ok(Outcome::Stored));
    assert_eq!(put(&mut dir, "\u{e9}", &entry("y", None, 1)), Ok(Outcome::Stored));
    let foreign = FsRequest::WriteFile {
        name: "README.txt".to_string(),
        temp_name: "README.txt.tmp".to_string(),
        bytes: b"not an entry".to_vec(),
    };
    assert_eq!(dir.perform(&foreign), FsReply::Done);
    assert_eq!(tags(&mut dir), vec!["Foo Bar".to_string(), "\u{e9}".to_string()]);
    let names = FsReply::Names(vec![
        "foo.tmp".to_string(),
        "b".to_string(),
        "%61".to_string(),
        "a".to_string(),
        "UPPER".to_string(),
    ]);
    assert_eq!(
        Pending::AwaitingListing.resume(names, TimeSpan::zero()),
        Step::Finished(Ok(Outcome::Tags(vec!["b".to_string(), "a".to_string()])))
    );
}

#[test]
fn store_asks_for_the_directory_and_then_for_one_write() {
    let store = CachingContentStore::init("cache");
    let e = entry("hi there", Some(100), 7);
    let write = FsRequest::WriteFile {
        name: "%46oo".to_string(),
        temp_name: "%46oo.tmp".to_string(),
        bytes: serialize("Foo", &e),
    };
    let first = store.store("Foo", &e);
    assert_eq!(
        first,
        Step::Perform {
            request: FsRequest::CreateDir,
            pending: Pending::AwaitingDir { write: write.clone() },
        }
    );
    let second = Pending::AwaitingDir { write: write.clone() }.resume(FsReply::Done, TimeSpan::zero());
    assert_eq!(second, Step::Perform { request: write.clone(), pending: Pending::AwaitingWrite });
    let again = Pending::AwaitingDir { write: write.clone() }
        .resume(FsReply::Failed(failure(IoErrorKind::AlreadyExists)), TimeSpan::zero());
    assert_eq!(again, Step::Perform { request: write, pending: Pending::AwaitingWrite });
    assert_eq!(
        Pending::AwaitingWrite.resume(FsReply::Done, TimeSpan::zero()),
        Step::Finished(Ok(Outcome::Stored))
    );
}

#[test]
fn get_and_delete_ask_for_the_file_of_the_tag() {
    let store = CachingContentStore::init("cache");
    assert_eq!(
        store.get("a b"),
        Step::Perform {
            request: FsRequest::ReadFile { name: "a%20b".to_string() },
            pending: Pending::AwaitingRead { tag: "a b".to_string(), name: "a%20b".to_string() },
        }
    );
    assert_eq!(
        store.delete("a b"),
        Step::Perform {
            request: FsRequest::RemoveFile { name: "a%20b".to_string() },
            pending: Pending::AwaitingRemoval,
        }
    );
    assert_eq!(
        store.list_tags(),
        Step::Perform { request: FsRequest::ListDir, pending: Pending::AwaitingListing }
    );
}

#[test]
fn failures_of_the_file_system_are_handed_on() {
    let other = failure(IoErrorKind::Other);
    let failed = Step::Finished(Err(StoreError::Io(other.clone())));
    let now = TimeSpan::zero();
    let write = FsRequest::ListDir;
    assert_eq!(Pending::AwaitingDir { write }.resume(FsReply::Failed(other.clone()), now), failed);
    assert_eq!(Pending::AwaitingWrite.resume(FsReply::Failed(other.clone()), now), failed);
    let read = Pending::AwaitingRead { tag: "t".to_string(), name: "t".to_string() };
    assert_eq!(read.resume(FsReply::Failed(other.clone()), now), failed);
    assert_eq!(Pending::AwaitingCleanup.resume(FsReply::Failed(other.clone()), now), failed);
    assert_eq!(Pending::AwaitingRemoval.resume(FsReply::Failed(other.clone()), now), failed);
    assert_eq!(Pending::AwaitingListing.resume(FsReply::Failed(other), now), failed);
    let missing = failure(IoErrorKind::NotFound);
    assert_eq!(
        Pending::AwaitingWrite.resume(FsReply::Failed(missing.clone()), now),
        Step::Finished(Err(StoreError::Io(missing.clone())))
    );
    let exists = failure(IoErrorKind::AlreadyExists);
    assert_eq!(
        Pending::AwaitingRemoval.resume(FsReply::Failed(exists.clone()), now),
        Step::Finished(Err(StoreError::Io(exists)))
    );
    assert_eq!(
        Pending::AwaitingDir { write: FsRequest::ListDir }.resume(FsReply::Failed(missing.clone()), now),
        Step::Finished(Err(StoreError::Io(missing)))
    );
}

#[test]
fn a_missing_file_is_an_absent_entry() {
    let missing = failure(IoErrorKind::NotFound);
    let now = TimeSpan::zero();
    let read = Pending::AwaitingRead { tag: "t".to_string(), name: "t".to_string() };
    assert_eq!(
        read.resume(FsReply::Failed(missing.clone()), now),
        Step::Finished(Ok(Outcome::Content(None)))
    );
    assert_eq!(
        Pending::AwaitingCleanup.resume(FsReply::Failed(missing.clone()), now),
        Step::Finished(Ok(Outcome::Content(None)))
    );
    assert_eq!(
        Pending::AwaitingRemoval.resume(FsReply::Failed(missing.clone()), now),
        Step::Finished(Ok(Outcome::Deleted))
    );
    assert_eq!(
        Pending::AwaitingListing.resume(FsReply::Failed(missing), now),
        Step::Finished(Ok(Outcome::Tags(Vec::new())))
    );
}

#[test]
fn a_reply_of_the_wrong_kind_is_unexpected() {
    let now = TimeSpan::zero();
    let unexpected = Step::Finished(Err(StoreError::UnexpectedReply));
    assert_eq!(Pending::AwaitingWrite.resume(FsReply::Contents(Vec::new()), now), unexpected);
    assert_eq!(Pending::AwaitingListing.resume(FsReply::Done, now), unexpected);
    assert_eq!(Pending::AwaitingRemoval.resume(FsReply::Names(Vec::new()), now), unexpected);
    assert_eq!(Pending::AwaitingCleanup.resume(FsReply::Contents(Vec::new()), now), unexpected);
    let read = Pending::AwaitingRead { tag: "t".to_string(), name: "t".to_string() };
    assert_eq!(read.resume(FsReply::Done, now), unexpected);
    assert_eq!(
        Pending::AwaitingDir { write: FsRequest::ListDir }.resume(FsReply::Names(Vec::new()), now),
        unexpected
    );
}

#[test]
fn a_corrupt_file_is_an_error_not_an_absent_entry() {
    let now = TimeSpan::zero();
    let read = Pending::AwaitingRead { tag: "t".to_string(), name: "t".to_string() };
    assert_eq!(
        read.clone().resume(FsReply::Contents(b"garbage".to_vec()), now),
        Step::Finished(Err(StoreError::Encoding(EncodingError::BadMagic)))
    );
    let mut cut = serialize("t", &entry("x", None, 1));
    cut.pop();
    assert_eq!(
        read.resume(FsReply::Contents(cut), now),
        Step::Finished(Err(StoreError::Encoding(EncodingError::Truncated)))
    );
}

#[test]
fn a_file_that_holds_another_tag_is_an_error() {
    let now = TimeSpan::zero();
    let read = Pending::AwaitingRead { tag: "t".to_string(), name: "t".to_string() };
    let bytes = serialize("u", &entry("x", None, 1));
    assert_eq!(
        read.resume(FsReply::Contents(bytes), now),
        Step::Finished(Err(StoreError::Encoding(EncodingError::TagMismatch)))
    );
}

#[test]
fn an_expired_entry_asks_for_its_file_to_be_removed() {
    let read = Pending::AwaitingRead { tag: "t".to_string(), name: "t".to_string() };
    let bytes = serialize("t", &entry("x", Some(5), 10));
    assert_eq!(
        read.clone().resume(FsReply::Contents(bytes.clone()), TimeSpan::from_secs(15)),
        Step::Perform {
            request: FsRequest::RemoveFile { name: "t".to_string() },
            pending: Pending::AwaitingCleanup,
        }
    );
    assert_eq!(
        read.resume(FsReply::Contents(bytes), TimeSpan::new(14, 999_999_999)),
        Step::Finished(Ok(Outcome::Content(Some(b"x".to_vec()))))
    );
}

#[test]
fn memory_dir_answers_as_a_directory_does() {
    let mut dir = MemoryDir::new();
    let name = "n".to_string();
    let write = FsRequest::WriteFile {
        name: name.clone(),
        temp_name: "n.tmp".to_string(),
        bytes: vec![1, 2],
    };
    let missing = FsReply::Failed(IoError { kind: IoErrorKind::NotFound, detail: "not found".to_string() });
    assert_eq!(dir.perform(&write), missing);
    assert_eq!(dir.perform(&FsRequest::ReadFile { name: name.clone() }), missing);
    assert_eq!(dir.perform(&FsRequest::RemoveFile { name: name.clone() }), missing);
    assert_eq!(dir.perform(&FsRequest::CreateDir), FsReply::Done);
    assert!(matches!(
        dir.perform(&FsRequest::CreateDir),
        FsReply::Failed(IoError { kind: IoErrorKind::AlreadyExists, .. })
    ));
    assert_eq!(dir.perform(&FsRequest::ListDir), FsReply::Names(Vec::new()));
    assert_eq!(dir.perform(&write), FsReply::Done);
    assert_eq!(dir.perform(&FsRequest::ReadFile { name: name.clone() }), FsReply::Contents(vec![1, 2]));
    let stale = FsRequest::WriteFile { name: "n.tmp".to_string(), temp_name: "x".to_string(), bytes: vec![9] };
    assert_eq!(dir.perform(&stale), FsReply::Done);
    let rewrite = FsRequest::WriteFile { name: name.clone(), temp_name: "n.tmp".to_string(), bytes: vec![3] };
    assert_eq!(dir.perform(&rewrite), FsReply::Done);
    assert_eq!(dir.perform(&FsRequest::ListDir), FsReply::Names(vec![name.clone()]));
    assert_eq!(dir.perform(&FsRequest::ReadFile { name: name.clone() }), FsReply::Contents(vec![3]));
    assert_eq!(dir.perform(&FsRequest::RemoveFile { name: name.clone() }), FsReply::Done);
    assert_eq!(dir.perform(&FsRequest::RemoveFile { name }), missing);
}

#[test]
fn a_write_that_stops_at_its_temporary_file_harms_no_entry() {
    let mut dir = MemoryDir::new();
    assert_eq!(put(&mut dir, "t", &entry("old", None, 1)), Ok(Outcome::Stored));
    let half = serialize("t", &entry("new", None, 2));
    let stopped = FsRequest::WriteFile {
        name: "t.tmp".to_string(),
        temp_name: "t.tmp.tmp".to_string(),
        bytes: half[..half.len() / 2].to_vec(),
    };
    assert_eq!(dir.perform(&stopped), FsReply::Done);
    assert_eq!(get(&mut dir, "t", 3), found("old"));
    assert_eq!(tags(&mut dir), vec!["t".to_string()]);
    assert_eq!(put(&mut dir, "t", &entry("new", None, 2)), Ok(Outcome::Stored));
    assert_eq!(get(&mut dir, "t", 3), found("new"));
    assert_eq!(
        dir.perform(&FsRequest::ListDir),
        FsReply::Names(vec!["t".to_string()])
    );
}
