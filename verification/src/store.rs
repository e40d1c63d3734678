//! The content store: what `store`, `get`, `delete` and `list_tags` ask of
//! the file system, and what they make of its answers.
//!
//! Each operation starts with a call on the store, which returns a [`Step`].
//! A step is either finished, with the result of the operation, or it holds
//! one request for the file system and what the operation waits for. The
//! caller carries out the request and calls [`Pending::resume`] with the
//! reply, until a step is finished. No operation lists the directory but
//! `list_tags`: the file of a tag is found by its name alone.

use vstd::prelude::*;
use vstd::string::*;
use crate::entry::{CachedContent, EntryView};
use crate::error::{EncodingError, IoError, IoErrorKind, StoreError};
use crate::fs::{FsReply, FsReplyView, FsRequest, FsRequestView, texts};
use crate::record::{RecordView, deserialize, parse_record, serialize, stored_view};
use crate::tag::{TagCodec, file_name_tag, tag_defect, tag_file_name, valid_tag};
use crate::time::TimeSpan;

verus! {

/// What an operation waits for while the caller carries out a request.
#[derive(Clone, Debug, PartialEq, Eq)]
pub enum Pending {
    /// A store waits for the directory to be made, and will then ask for
    /// `write`.
    AwaitingDir { write: FsRequest },
    /// A store waits for its file to be written.
    AwaitingWrite,
    /// A lookup of `tag` waits for the bytes of the file `name`.
    AwaitingRead { tag: String, name: String },
    /// A lookup that found an expired entry waits for its file to be
    /// removed.
    AwaitingCleanup,
    /// A deletion waits for the file to be removed.
    AwaitingRemoval,
    /// A listing waits for the names in the directory.
    AwaitingListing,
}

/// The mathematical content of a [`Pending`].
pub ghost enum PendingView {
    AwaitingDir { write: FsRequestView },
    AwaitingWrite,
    AwaitingRead { tag: Seq<char>, name: Seq<char> },
    AwaitingCleanup,
    AwaitingRemoval,
    AwaitingListing,
}

impl View for Pending {
    type V = PendingView;

    open spec fn view(&self) -> PendingView {
        match *self {
            Pending::AwaitingDir { write } => PendingView::AwaitingDir { write: write@ },
            Pending::AwaitingWrite => PendingView::AwaitingWrite,
            Pending::AwaitingRead { tag, name } => PendingView::AwaitingRead {
                tag: tag@,
                name: name@,
            },
            Pending::AwaitingCleanup => PendingView::AwaitingCleanup,
            Pending::AwaitingRemoval => PendingView::AwaitingRemoval,
            Pending::AwaitingListing => PendingView::AwaitingListing,
        }
    }
}

/// What a finished operation hands back.
#[derive(Clone, Debug, PartialEq, Eq)]
pub enum Outcome {
    /// The entry was stored.
    Stored,
    /// The content found under the tag, or `None` where there is no entry
    /// or it has expired.
    Content(Option<Vec<u8>>),
    /// No file is left for the tag.
    Deleted,
    /// The tags that have a file, in the order in which the files were
    /// listed.
    Tags(Vec<String>),
}

/// The mathematical content of an [`Outcome`].
pub ghost enum OutcomeView {
    Stored,
    Content(Option<Seq<u8>>),
    Deleted,
    Tags(Seq<Seq<char>>),
}

impl View for Outcome {
    type V = OutcomeView;

    open spec fn view(&self) -> OutcomeView {
        match *self {
            Outcome::Stored => OutcomeView::Stored,
            Outcome::Content(content) => OutcomeView::Content(crate::record::bytes_of(content)),
            Outcome::Deleted => OutcomeView::Deleted,
            Outcome::Tags(tags) => OutcomeView::Tags(texts(tags@)),
        }
    }
}

/// Where an operation stands.
#[derive(Debug, PartialEq, Eq)]
pub enum Step {
    /// The caller is to carry out `request` and to resume `pending` with the
    /// reply.
    Perform { request: FsRequest, pending: Pending },
    /// The operation is over.
    Finished(Result<Outcome, StoreError>),
}

/// The mathematical content of a [`Step`].
pub ghost enum StepView {
    Perform { request: FsRequestView, pending: PendingView },
    Finished(Result<OutcomeView, StoreError>),
}

impl View for Step {
    type V = StepView;

    open spec fn view(&self) -> StepView {
        match *self {
            Step::Perform { request, pending } => StepView::Perform {
                request: request@,
                pending: pending@,
            },
            Step::Finished(Ok(outcome)) => StepView::Finished(Ok(outcome@)),
            Step::Finished(Err(e)) => StepView::Finished(Err(e)),
        }
    }
}

/// The name of the file in which a write gathers the bytes for `name`
/// before it takes the place of `name`. It holds a dot, which no file name
/// of a tag does.
pub open spec fn temp_file_name(name: Seq<char>) -> Seq<char> {
    name + ".tmp"@
}

/// The request that puts `entry` into the file of `tag`.
pub open spec fn write_request(tag: Seq<char>, entry: EntryView<Seq<u8>>) -> FsRequestView {
    FsRequestView::WriteFile {
        name: tag_file_name(tag),
        temp_name: temp_file_name(tag_file_name(tag)),
        bytes: (RecordView { tag, entry }).to_bytes(),
    }
}

/// The step that ends an operation on a tag that is refused.
pub open spec fn refused(tag: Seq<char>) -> StepView {
    StepView::Finished(Err(StoreError::InvalidTag(tag_defect(tag).unwrap())))
}

/// How storing `entry` under `tag` starts: a tag that is not valid ends it
/// at once; else the directory is made, and the write comes next.
pub open spec fn store_start(tag: Seq<char>, entry: EntryView<Seq<u8>>) -> StepView {
    if valid_tag(tag) {
        StepView::Perform {
            request: FsRequestView::CreateDir,
            pending: PendingView::AwaitingDir { write: write_request(tag, entry) },
        }
    } else {
        refused(tag)
    }
}

/// How looking up `tag` starts: with reading its file.
pub open spec fn get_start(tag: Seq<char>) -> StepView {
    if valid_tag(tag) {
        StepView::Perform {
            request: FsRequestView::ReadFile { name: tag_file_name(tag) },
            pending: PendingView::AwaitingRead { tag, name: tag_file_name(tag) },
        }
    } else {
        refused(tag)
    }
}

/// How deleting `tag` starts: with removing its file.
pub open spec fn delete_start(tag: Seq<char>) -> StepView {
    if valid_tag(tag) {
        StepView::Perform {
            request: FsRequestView::RemoveFile { name: tag_file_name(tag) },
            pending: PendingView::AwaitingRemoval,
        }
    } else {
        refused(tag)
    }
}

/// How listing the tags starts: with listing the directory.
pub open spec fn list_start() -> StepView {
    StepView::Perform { request: FsRequestView::ListDir, pending: PendingView::AwaitingListing }
}

/// The tags that the given file names stand for, in their order. Names that
/// stand for no tag are left out.
pub open spec fn listed_tags(names: Seq<Seq<char>>) -> Seq<Seq<char>>
    decreases names.len(),
{
    if names.len() == 0 {
        Seq::empty()
    } else {
        let before = listed_tags(names.drop_last());
        match file_name_tag(names.last()) {
            Some(tag) => before.push(tag),
            None => before,
        }
    }
}

/// What a lookup of `tag` makes of the bytes of its file at the time
/// `now`: a file that cannot be read as an entry of `tag` is an error; a
/// valid entry gives its content; an expired one has its file `name`
/// removed before the lookup ends.
pub open spec fn read_entry(tag: Seq<char>, name: Seq<char>, bytes: Seq<u8>, now: nat) -> StepView {
    match parse_record(bytes) {
        Err(e) => StepView::Finished(Err(StoreError::Encoding(e))),
        Ok(record) => if record.tag != tag {
            StepView::Finished(Err(StoreError::Encoding(EncodingError::TagMismatch)))
        } else if record.entry.is_valid_at(now) {
            StepView::Finished(Ok(OutcomeView::Content(Some(record.entry.content))))
        } else {
            StepView::Perform {
                request: FsRequestView::RemoveFile { name },
                pending: PendingView::AwaitingCleanup,
            }
        },
    }
}

/// The step after a reply. A directory that exists already is as good as
/// one just made; a file that is absent is an entry that is absent; every
/// other failure ends the operation with that failure, and a reply of the
/// wrong kind ends it with `UnexpectedReply`.
pub open spec fn resume_step(pending: PendingView, reply: FsReplyView, now: nat) -> StepView {
    match (pending, reply) {
        (PendingView::AwaitingDir { write }, FsReplyView::Done) => StepView::Perform {
            request: write,
            pending: PendingView::AwaitingWrite,
        },
        (PendingView::AwaitingDir { write }, FsReplyView::Failed(e)) => if e.kind
            == IoErrorKind::AlreadyExists {
            StepView::Perform { request: write, pending: PendingView::AwaitingWrite }
        } else {
            StepView::Finished(Err(StoreError::Io(e)))
        },
        (PendingView::AwaitingWrite, FsReplyView::Done) => StepView::Finished(
            Ok(OutcomeView::Stored),
        ),
        (PendingView::AwaitingRead { tag, name }, FsReplyView::Contents(bytes)) => read_entry(
            tag,
            name,
            bytes,
            now,
        ),
        (PendingView::AwaitingRead { .. }, FsReplyView::Failed(e)) => if e.kind
            == IoErrorKind::NotFound {
            StepView::Finished(Ok(OutcomeView::Content(None)))
        } else {
            StepView::Finished(Err(StoreError::Io(e)))
        },
        (PendingView::AwaitingCleanup, FsReplyView::Done) => StepView::Finished(
            Ok(OutcomeView::Content(None)),
        ),
        (PendingView::AwaitingCleanup, FsReplyView::Failed(e)) => if e.kind
            == IoErrorKind::NotFound {
            StepView::Finished(Ok(OutcomeView::Content(None)))
        } else {
            StepView::Finished(Err(StoreError::Io(e)))
        },
        (PendingView::AwaitingRemoval, FsReplyView::Done) => StepView::Finished(
            Ok(OutcomeView::Deleted),
        ),
        (PendingView::AwaitingRemoval, FsReplyView::Failed(e)) => if e.kind
            == IoErrorKind::NotFound {
            StepView::Finished(Ok(OutcomeView::Deleted))
        } else {
            StepView::Finished(Err(StoreError::Io(e)))
        },
        (PendingView::AwaitingListing, FsReplyView::Names(names)) => StepView::Finished(
            Ok(OutcomeView::Tags(listed_tags(names))),
        ),
        (PendingView::AwaitingListing, FsReplyView::Failed(e)) => if e.kind
            == IoErrorKind::NotFound {
            StepView::Finished(Ok(OutcomeView::Tags(Seq::empty())))
        } else {
            StepView::Finished(Err(StoreError::Io(e)))
        },
        (_, FsReplyView::Failed(e)) => StepView::Finished(Err(StoreError::Io(e))),
        _ => StepView::Finished(Err(StoreError::UnexpectedReply)),
    }
}

/// The tags that the listed file names stand for.
pub fn tags_of_names(names: &Vec<String>) -> (r: Vec<String>)
    ensures
        texts(r@) == listed_tags(texts(names@)),
{
    let mut tags: Vec<String> = Vec::new();
    let n = names.len();
    let mut i: usize = 0;
    assert(texts(names@).take(0) =~= Seq::<Seq<char>>::empty());
    assert(texts(tags@) =~= Seq::<Seq<char>>::empty());
    while i < n
        invariant
            0 <= i <= n,
            n == names@.len(),
            texts(tags@) == listed_tags(texts(names@).take(i as int)),
        decreases n - i,
    {
        let ghost seen = texts(names@).take(i + 1);
        let ghost was = texts(tags@);
        assert(seen.drop_last() =~= texts(names@).take(i as int));
        assert(seen.last() == names@[i as int]@);
        match TagCodec::decode(names[i].as_str()) {
            Some(tag) => {
                tags.push(tag);
                assert(texts(tags@) =~= was.push(tag@));
            },
            None => {},
        }
        i += 1;
    }
    assert(texts(names@).take(n as int) =~= texts(names@));
    tags
}

fn failed(e: IoError, absorbed: IoErrorKind, otherwise: Outcome) -> (r: Step)
    ensures
        r@ == if e.kind == absorbed {
            StepView::Finished(Ok(otherwise@))
        } else {
            StepView::Finished(Err(StoreError::Io(e)))
        },
{
    if e.kind == absorbed {
        Step::Finished(Ok(otherwise))
    } else {
        Step::Finished(Err(StoreError::Io(e)))
    }
}

impl Pending {
    /// Takes the operation one step further with the reply to its request,
    /// at the time `time_now`.
    pub fn resume(self, reply: FsReply, time_now: TimeSpan) -> (r: Step)
        ensures
            r@ == resume_step(self@, reply@, time_now@),
    {
        match self {
            Pending::AwaitingDir { write } => match reply {
                FsReply::Done => Step::Perform { request: write, pending: Pending::AwaitingWrite },
                FsReply::Failed(e) => {
                    if e.kind == IoErrorKind::AlreadyExists {
                        Step::Perform { request: write, pending: Pending::AwaitingWrite }
                    } else {
                        Step::Finished(Err(StoreError::Io(e)))
                    }
                },
                _ => Step::Finished(Err(StoreError::UnexpectedReply)),
            },
            Pending::AwaitingWrite => match reply {
                FsReply::Done => Step::Finished(Ok(Outcome::Stored)),
                FsReply::Failed(e) => Step::Finished(Err(StoreError::Io(e))),
                _ => Step::Finished(Err(StoreError::UnexpectedReply)),
            },
            Pending::AwaitingRead { tag, name } => match reply {
                FsReply::Contents(bytes) => match deserialize(bytes.as_slice()) {
                    Err(e) => Step::Finished(Err(StoreError::Encoding(e))),
                    Ok(record) => {
                        if record.tag != tag {
                            Step::Finished(Err(StoreError::Encoding(EncodingError::TagMismatch)))
                        } else if record.entry.is_valid(time_now) {
                            Step::Finished(
                                Ok(Outcome::Content(Some(record.entry.into_content()))),
                            )
                        } else {
                            Step::Perform {
                                request: FsRequest::RemoveFile { name },
                                pending: Pending::AwaitingCleanup,
                            }
                        }
                    },
                },
                FsReply::Failed(e) => failed(e, IoErrorKind::NotFound, Outcome::Content(None)),
                _ => Step::Finished(Err(StoreError::UnexpectedReply)),
            },
            Pending::AwaitingCleanup => match reply {
                FsReply::Done => Step::Finished(Ok(Outcome::Content(None))),
                FsReply::Failed(e) => failed(e, IoErrorKind::NotFound, Outcome::Content(None)),
                _ => Step::Finished(Err(StoreError::UnexpectedReply)),
            },
            Pending::AwaitingRemoval => match reply {
                FsReply::Done => Step::Finished(Ok(Outcome::Deleted)),
                FsReply::Failed(e) => failed(e, IoErrorKind::NotFound, Outcome::Deleted),
                _ => Step::Finished(Err(StoreError::UnexpectedReply)),
            },
            Pending::AwaitingListing => match reply {
                FsReply::Names(names) => Step::Finished(Ok(Outcome::Tags(tags_of_names(&names)))),
                FsReply::Failed(e) => {
                    let none: Vec<String> = Vec::new();
                    assert(texts(none@) =~= Seq::<Seq<char>>::empty());
                    failed(e, IoErrorKind::NotFound, Outcome::Tags(none))
                },
                _ => Step::Finished(Err(StoreError::UnexpectedReply)),
            },
        }
    }
}

/// A cache of content in the files of one directory.
#[derive(Clone, Debug, PartialEq, Eq)]
pub struct CachingContentStore {
    base_path: String,
}

impl View for CachingContentStore {
    type V = Seq<char>;

    /// The path of the base directory.
    closed spec fn view(&self) -> Seq<char> {
        self.base_path@
    }
}

impl CachingContentStore {
    /// A store that keeps its files in the directory `path`. The directory
    /// is made when an entry is first stored.
    pub fn init(path: &str) -> (r: Self)
        ensures
            r@ == path@,
    {
        CachingContentStore { base_path: String::from_str(path) }
    }

    /// The directory in which the requests of this store are to be carried
    /// out.
    pub fn base_path(&self) -> (r: &str)
        ensures
            r@ == self@,
    {
        self.base_path.as_str()
    }

    /// Starts to store `entry` under `tag`. A tag that is refused ends the
    /// operation before any request is made.
    pub fn store(&self, tag: &str, entry: &CachedContent<Vec<u8>>) -> (r: Step)
        ensures
            r@ == store_start(tag@, stored_view(*entry)),
            (RecordView { tag: tag@, entry: stored_view(*entry) }).wf(),
    {
        let bytes = serialize(tag, entry);
        match TagCodec::encode(tag) {
            Err(e) => Step::Finished(Err(StoreError::InvalidTag(e))),
            Ok(name) => {
                let temp_name = name.clone().concat(".tmp");
                Step::Perform {
                    request: FsRequest::CreateDir,
                    pending: Pending::AwaitingDir {
                        write: FsRequest::WriteFile { name, temp_name, bytes },
                    },
                }
            },
        }
    }

    /// Starts to look up `tag`.
    pub fn get(&self, tag: &str) -> (r: Step)
        ensures
            r@ == get_start(tag@),
    {
        match TagCodec::encode(tag) {
            Err(e) => Step::Finished(Err(StoreError::InvalidTag(e))),
            Ok(name) => Step::Perform {
                request: FsRequest::ReadFile { name: name.clone() },
                pending: Pending::AwaitingRead { tag: String::from_str(tag), name },
            },
        }
    }

    /// Starts to delete the entry of `tag`.
    pub fn delete(&self, tag: &str) -> (r: Step)
        ensures
            r@ == delete_start(tag@),
    {
        match TagCodec::encode(tag) {
            Err(e) => Step::Finished(Err(StoreError::InvalidTag(e))),
            Ok(name) => Step::Perform {
                request: FsRequest::RemoveFile { name },
                pending: Pending::AwaitingRemoval,
            },
        }
    }

    /// Starts to list the tags that have an entry file.
    pub fn list_tags(&self) -> (r: Step)
        ensures
            r@ == list_start(),
    {
        Step::Perform { request: FsRequest::ListDir, pending: Pending::AwaitingListing }
    }
}

} // verus!
