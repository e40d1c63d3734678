//! The file-system steps that the cache asks for, the outcomes it is
//! resumed with, and what a directory is taken to do with them.
//!
//! The cache keeps all its files in one directory and never opens them
//! itself. It hands out a [`FsRequest`], the caller carries it out in the
//! base directory of the store and hands back an [`FsReply`].

use vstd::prelude::*;
use crate::error::{IoError, IoErrorKind};

verus! {

/// One step for the caller to carry out in the base directory of the store.
#[derive(Clone, Debug, PartialEq, Eq)]
pub enum FsRequest {
    /// Create the base directory. Where it exists already the step fails
    /// with `AlreadyExists`.
    CreateDir,
    /// Read the whole file `name`.
    ReadFile { name: String },
    /// Put `bytes` into the file `name` in one move: write them to the file
    /// `temp_name` in the same directory, then rename that file to `name`.
    /// A reader sees the old file or the new one, never a part.
    WriteFile { name: String, temp_name: String, bytes: Vec<u8> },
    /// Remove the file `name`.
    RemoveFile { name: String },
    /// List the names of the files in the directory.
    ListDir,
}

/// The mathematical content of a request.
pub ghost enum FsRequestView {
    CreateDir,
    ReadFile { name: Seq<char> },
    WriteFile { name: Seq<char>, temp_name: Seq<char>, bytes: Seq<u8> },
    RemoveFile { name: Seq<char> },
    ListDir,
}

impl View for FsRequest {
    type V = FsRequestView;

    open spec fn view(&self) -> FsRequestView {
        match *self {
            FsRequest::CreateDir => FsRequestView::CreateDir,
            FsRequest::ReadFile { name } => FsRequestView::ReadFile { name: name@ },
            FsRequest::WriteFile { name, temp_name, bytes } => FsRequestView::WriteFile {
                name: name@,
                temp_name: temp_name@,
                bytes: bytes@,
            },
            FsRequest::RemoveFile { name } => FsRequestView::RemoveFile { name: name@ },
            FsRequest::ListDir => FsRequestView::ListDir,
        }
    }
}

/// How a step ended.
#[derive(Clone, Debug, PartialEq, Eq)]
pub enum FsReply {
    /// The step was carried out and has nothing to hand back.
    Done,
    /// The bytes of the file that was read.
    Contents(Vec<u8>),
    /// The names that were listed, in any order.
    Names(Vec<String>),
    /// The step failed.
    Failed(IoError),
}

/// The mathematical content of a reply.
pub ghost enum FsReplyView {
    Done,
    Contents(Seq<u8>),
    Names(Seq<Seq<char>>),
    Failed(IoError),
}

/// The characters of each string.
pub open spec fn texts(strings: Seq<String>) -> Seq<Seq<char>> {
    Seq::new(strings.len(), |i: int| strings[i]@)
}

impl View for FsReply {
    type V = FsReplyView;

    open spec fn view(&self) -> FsReplyView {
        match *self {
            FsReply::Done => FsReplyView::Done,
            FsReply::Contents(bytes) => FsReplyView::Contents(bytes@),
            FsReply::Names(names) => FsReplyView::Names(texts(names@)),
            FsReply::Failed(e) => FsReplyView::Failed(e),
        }
    }
}

/// A directory as the cache sees it: whether it exists, and the bytes of
/// each file in it by name.
pub ghost struct DirView {
    pub exists: bool,
    pub files: Map<Seq<char>, Seq<u8>>,
}

impl DirView {
    /// The directory before it was made.
    pub open spec fn absent() -> DirView {
        DirView { exists: false, files: Map::empty() }
    }

    /// A directory holds files only if it exists, and finitely many.
    pub open spec fn wf(self) -> bool {
        &&& self.files.dom().finite()
        &&& !self.exists ==> self.files == Map::<Seq<char>, Seq<u8>>::empty()
    }

    /// Whether the directory holds the file `name`.
    pub open spec fn has(self, name: Seq<char>) -> bool {
        self.exists && self.files.contains_key(name)
    }

    /// The directory after a step was carried out on it by a file system
    /// that fails only where a file or the directory is absent or exists
    /// already.
    pub open spec fn after(self, request: FsRequestView) -> DirView {
        match request {
            FsRequestView::CreateDir => DirView { exists: true, files: self.files },
            FsRequestView::WriteFile { name, temp_name, bytes } => if self.exists {
                DirView { exists: true, files: self.files.remove(temp_name).insert(name, bytes) }
            } else {
                self
            },
            FsRequestView::RemoveFile { name } => DirView {
                exists: self.exists,
                files: self.files.remove(name),
            },
            FsRequestView::ReadFile { .. } => self,
            FsRequestView::ListDir => self,
        }
    }

    /// Whether the file `name` is the same in both directories: in both or
    /// in neither, and with the same bytes.
    pub open spec fn same_file(self, other: DirView, name: Seq<char>) -> bool {
        &&& self.files.contains_key(name) == other.files.contains_key(name)
        &&& self.files.contains_key(name) ==> self.files[name] == other.files[name]
    }

    /// Whether `left` may be what is left of the directory when a step is
    /// cut short, by a crash or by a failure on its way. A write that is cut
    /// short has touched its temporary file at most, since the rename that
    /// ends it takes place whole or not at all; every other step is carried
    /// out whole or not at all.
    pub open spec fn cut_short(self, request: FsRequestView, left: DirView) -> bool {
        ||| left == self.after(request)
        ||| match request {
            FsRequestView::WriteFile { temp_name, .. } => {
                &&& left.exists == self.exists
                &&& forall|name: Seq<char>|
                    name != temp_name ==> #[trigger] self.same_file(left, name)
            },
            _ => left == self,
        }
    }

    /// Whether `reply` is how such a file system may answer the step. A
    /// listing names every file once, in an order that is not laid down;
    /// of a failure only the kind is.
    pub open spec fn answers(self, request: FsRequestView, reply: FsReplyView) -> bool {
        match request {
            FsRequestView::CreateDir => if self.exists {
                reply matches FsReplyView::Failed(e) && e.kind == IoErrorKind::AlreadyExists
            } else {
                reply == FsReplyView::Done
            },
            FsRequestView::ReadFile { name } => if self.has(name) {
                reply == FsReplyView::Contents(self.files[name])
            } else {
                reply matches FsReplyView::Failed(e) && e.kind == IoErrorKind::NotFound
            },
            FsRequestView::WriteFile { .. } => if self.exists {
                reply == FsReplyView::Done
            } else {
                reply matches FsReplyView::Failed(e) && e.kind == IoErrorKind::NotFound
            },
            FsRequestView::RemoveFile { name } => if self.has(name) {
                reply == FsReplyView::Done
            } else {
                reply matches FsReplyView::Failed(e) && e.kind == IoErrorKind::NotFound
            },
            FsRequestView::ListDir => if self.exists {
                reply matches FsReplyView::Names(names) && names.no_duplicates() && names.to_set()
                    == self.files.dom()
            } else {
                reply matches FsReplyView::Failed(e) && e.kind == IoErrorKind::NotFound
            },
        }
    }
}

} // verus!
