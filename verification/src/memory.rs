//! A directory held in memory that answers requests as a file system would.
//!
//! It is what tests run the store against, and what a caller may use where
//! nothing is to reach a disk.

use vstd::prelude::*;
use vstd::slice::slice_to_vec;
use vstd::string::*;
use crate::error::{IoError, IoErrorKind};
use crate::fs::{DirView, FsReply, FsReplyView, FsRequest, FsRequestView, texts};

verus! {

/// One file: its name and its bytes.
#[derive(Clone, Debug, PartialEq, Eq)]
pub struct MemoryFile {
    pub name: String,
    pub bytes: Vec<u8>,
}

/// The names of the given files, in their order.
pub open spec fn file_names(files: Seq<MemoryFile>) -> Seq<Seq<char>> {
    Seq::new(files.len(), |i: int| files[i].name@)
}

/// The files by name. Meant for files of which no two share a name.
pub open spec fn files_by_name(files: Seq<MemoryFile>) -> Map<Seq<char>, Seq<u8>> {
    Map::new(
        |name: Seq<char>| file_names(files).contains(name),
        |name: Seq<char>| files[file_names(files).index_of(name)].bytes@,
    )
}

/// A directory in memory. It has no files until it is made.
#[derive(Clone, Debug)]
pub struct MemoryDir {
    exists: bool,
    files: Vec<MemoryFile>,
}

impl View for MemoryDir {
    type V = DirView;

    closed spec fn view(&self) -> DirView {
        DirView { exists: self.exists, files: files_by_name(self.files@) }
    }
}

/// Where each file is found by its name, no two files share a name.
proof fn lemma_index_of(files: Seq<MemoryFile>, i: int)
    requires
        file_names(files).no_duplicates(),
        0 <= i < files.len(),
    ensures
        file_names(files).contains(files[i].name@),
        file_names(files).index_of(files[i].name@) == i,
        files_by_name(files).contains_key(files[i].name@),
        files_by_name(files)[files[i].name@] == files[i].bytes@,
{
    let names = file_names(files);
    assert(names[i] == files[i].name@);
    let j = names.index_of(files[i].name@);
    assert(0 <= j < names.len() && names[j] == names[i]);
}

/// The names of finitely many files are finitely many.
proof fn lemma_files_finite(files: Seq<MemoryFile>)
    ensures
        files_by_name(files).dom().finite(),
        files_by_name(files).dom() == file_names(files).to_set(),
{
    assert(files_by_name(files).dom() =~= file_names(files).to_set());
    vstd::seq_lib::seq_to_set_is_finite(file_names(files));
}

/// Taking a file out takes its name out of the files by name.
proof fn lemma_remove(before: Seq<MemoryFile>, i: int)
    requires
        file_names(before).no_duplicates(),
        0 <= i < before.len(),
    ensures
        file_names(before.remove(i)).no_duplicates(),
        files_by_name(before.remove(i)) == files_by_name(before).remove(before[i].name@),
{
    let after = before.remove(i);
    let gone = before[i].name@;
    assert forall|a: int, b: int| 0 <= a < after.len() && 0 <= b < after.len() && a != b implies {
        file_names(after)[a] != file_names(after)[b]
    } by {
        let a0 = if a < i { a } else { a + 1 };
        let b0 = if b < i { b } else { b + 1 };
        assert(file_names(before)[a0] != file_names(before)[b0]);
    }
    let left = files_by_name(after);
    let right = files_by_name(before).remove(gone);
    assert forall|key: Seq<char>| #[trigger] left.dom().contains(key) == right.dom().contains(key) by {
        if file_names(after).contains(key) {
            let a = choose|a: int| 0 <= a < after.len() && file_names(after)[a] == key;
            let a0 = if a < i { a } else { a + 1 };
            assert(file_names(before)[a0] == key);
            assert(file_names(before)[a0] != file_names(before)[i]);
        }
        if file_names(before).contains(key) && key != gone {
            let b = choose|b: int| 0 <= b < before.len() && file_names(before)[b] == key;
            let b1 = if b < i { b } else { b - 1 };
            assert(file_names(after)[b1] == key);
        }
    }
    assert forall|key: Seq<char>| left.dom().contains(key) implies #[trigger] left[key] == right[key] by {
        let a = choose|a: int| 0 <= a < after.len() && file_names(after)[a] == key;
        let a0 = if a < i { a } else { a + 1 };
        lemma_index_of(after, a);
        lemma_index_of(before, a0);
    }
    assert(left =~= right);
}

/// Adding a file under a new name adds it to the files by name.
proof fn lemma_push(before: Seq<MemoryFile>, file: MemoryFile)
    requires
        file_names(before).no_duplicates(),
        !file_names(before).contains(file.name@),
    ensures
        file_names(before.push(file)).no_duplicates(),
        files_by_name(before.push(file)) == files_by_name(before).insert(file.name@, file.bytes@),
{
    let after = before.push(file);
    let last = before.len() as int;
    assert forall|a: int, b: int| 0 <= a < after.len() && 0 <= b < after.len() && a != b implies {
        file_names(after)[a] != file_names(after)[b]
    } by {
        if a < last && b < last {
            assert(file_names(before)[a] != file_names(before)[b]);
        } else if a < last {
            assert(file_names(before)[a] == file_names(after)[a]);
        } else {
            assert(file_names(before)[b] == file_names(after)[b]);
        }
    }
    let left = files_by_name(after);
    let right = files_by_name(before).insert(file.name@, file.bytes@);
    assert forall|key: Seq<char>| #[trigger] left.dom().contains(key) == right.dom().contains(key) by {
        if file_names(after).contains(key) {
            let a = choose|a: int| 0 <= a < after.len() && file_names(after)[a] == key;
            if a < last {
                assert(file_names(before)[a] == key);
            }
        }
        if file_names(before).contains(key) {
            let b = choose|b: int| 0 <= b < before.len() && file_names(before)[b] == key;
            assert(file_names(after)[b] == key);
        }
        if key == file.name@ {
            assert(file_names(after)[last] == key);
        }
    }
    assert forall|key: Seq<char>| left.dom().contains(key) implies #[trigger] left[key] == right[key] by {
        let a = choose|a: int| 0 <= a < after.len() && file_names(after)[a] == key;
        lemma_index_of(after, a);
        if a < last {
            assert(file_names(before)[a] == key);
            lemma_index_of(before, a);
        }
    }
    assert(left =~= right);
}

/// The reply to a request for a file, or in a directory, that is not there.
fn not_found() -> (r: FsReply)
    ensures
        r@ matches FsReplyView::Failed(e) && e.kind == IoErrorKind::NotFound && e.detail@
            == "not found"@,
{
    FsReply::Failed(IoError { kind: IoErrorKind::NotFound, detail: String::from_str("not found") })
}

impl MemoryDir {
    /// No two files share a name, and there are none before the directory
    /// is made. Every directory that `new` and `perform` hand out is so.
    pub closed spec fn wf(self) -> bool {
        &&& file_names(self.files@).no_duplicates()
        &&& !self.exists ==> self.files@.len() == 0
    }

    /// A directory in memory is one that the theorems on the store speak of.
    proof fn lemma_view_wf(self)
        requires
            self.wf(),
        ensures
            self@.wf(),
    {
        lemma_files_finite(self.files@);
        if !self.exists {
            assert(files_by_name(self.files@) =~= Map::<Seq<char>, Seq<u8>>::empty());
        }
    }

    /// A directory that was not made yet.
    pub fn new() -> (r: Self)
        ensures
            r@ == DirView::absent(),
            r.wf(),
            r@.wf(),
    {
        let r = MemoryDir { exists: false, files: Vec::new() };
        assert(files_by_name(r.files@) =~= Map::<Seq<char>, Seq<u8>>::empty());
        proof {
            r.lemma_view_wf();
        }
        r
    }

    /// Where the file `name` stands, if there is one.
    fn position(&self, name: &String) -> (r: Option<usize>)
        ensures
            match r {
                Some(i) => i < self.files@.len() && self.files@[i as int].name@ == name@,
                None => !file_names(self.files@).contains(name@),
            },
    {
        let n = self.files.len();
        let mut i: usize = 0;
        while i < n
            invariant
                0 <= i <= n,
                n == self.files@.len(),
                forall|j: int| 0 <= j < i ==> self.files@[j].name@ != name@,
            decreases n - i,
        {
            if self.files[i].name == *name {
                return Some(i);
            }
            i += 1;
        }
        proof {
            let names = file_names(self.files@);
            if names.contains(name@) {
                let j = choose|j: int| 0 <= j < names.len() && names[j] == name@;
                assert(self.files@[j].name@ == name@);
            }
        }
        None
    }

    /// Takes the file `name` out, if there is one, and says whether there
    /// was.
    fn take_out(&mut self, name: &String) -> (r: bool)
        requires
            old(self).wf(),
        ensures
            final(self).wf(),
            r == old(self)@.files.contains_key(name@),
            final(self)@ == (DirView {
                exists: old(self)@.exists,
                files: old(self)@.files.remove(name@),
            }),
    {
        match self.position(name) {
            None => {
                assert(self@.files.remove(name@) =~= self@.files);
                false
            },
            Some(i) => {
                let ghost before = self.files@;
                proof {
                    lemma_index_of(before, i as int);
                }
                self.files.remove(i);
                proof {
                    assert(self.files@ =~= before.remove(i as int));
                    lemma_remove(before, i as int);
                }
                true
            },
        }
    }

    /// Puts `bytes` into the file `name`, which is made if it is not there.
    fn put(&mut self, name: &String, bytes: &Vec<u8>)
        requires
            old(self).wf(),
            old(self)@.exists,
        ensures
            final(self).wf(),
            final(self)@ == (DirView { exists: true, files: old(self)@.files.insert(name@, bytes@) }),
    {
        let _ = self.take_out(name);
        let ghost before = self.files@;
        let file = MemoryFile { name: name.clone(), bytes: slice_to_vec(bytes.as_slice()) };
        self.files.push(file);
        proof {
            assert(self.files@ =~= before.push(file));
            assert(!file_names(before).contains(name@)) by {
                assert(!files_by_name(before).contains_key(name@));
            }
            lemma_push(before, file);
            assert(old(self)@.files.remove(name@).insert(name@, bytes@) =~= old(self)@.files.insert(
                name@,
                bytes@,
            ));
        }
    }

    /// The names of the files, in the order in which they are held.
    fn names(&self) -> (r: Vec<String>)
        ensures
            texts(r@) == file_names(self.files@),
    {
        let mut names: Vec<String> = Vec::new();
        let n = self.files.len();
        let mut i: usize = 0;
        while i < n
            invariant
                0 <= i <= n,
                n == self.files@.len(),
                names@.len() == i,
                texts(names@) == file_names(self.files@).take(i as int),
            decreases n - i,
        {
            let ghost was = names@;
            names.push(self.files[i].name.clone());
            assert forall|j: int| 0 <= j <= i implies texts(names@)[j] == file_names(
                self.files@,
            )[j] by {
                if j < i {
                    assert(texts(was)[j] == file_names(self.files@).take(i as int)[j]);
                }
            }
            assert(texts(names@) =~= file_names(self.files@).take(i + 1));
            i += 1;
        }
        assert(file_names(self.files@).take(n as int) =~= file_names(self.files@));
        names
    }

    /// Carries out a request and gives the reply, as a file system does
    /// that fails only where a file or the directory is absent or exists
    /// already.
    pub fn perform(&mut self, request: &FsRequest) -> (reply: FsReply)
        requires
            old(self).wf(),
        ensures
            final(self).wf(),
            old(self)@.wf(),
            final(self)@.wf(),
            old(self)@.answers(request@, reply@),
            final(self)@ == old(self)@.after(request@),
    {
        proof {
            lemma_files_finite(self.files@);
            self.lemma_view_wf();
        }
        let reply = match request {
            FsRequest::CreateDir => {
                if self.exists {
                    FsReply::Failed(
                        IoError {
                            kind: IoErrorKind::AlreadyExists,
                            detail: String::from_str("the directory exists already"),
                        },
                    )
                } else {
                    self.exists = true;
                    FsReply::Done
                }
            },
            FsRequest::ReadFile { name } => match self.position(name) {
                Some(i) => {
                    proof {
                        lemma_index_of(self.files@, i as int);
                    }
                    FsReply::Contents(slice_to_vec(self.files[i].bytes.as_slice()))
                },
                None => not_found(),
            },
            FsRequest::WriteFile { name, temp_name, bytes } => {
                if self.exists {
                    let _ = self.take_out(temp_name);
                    self.put(name, bytes);
                    FsReply::Done
                } else {
                    not_found()
                }
            },
            FsRequest::RemoveFile { name } => {
                if self.take_out(name) {
                    FsReply::Done
                } else {
                    not_found()
                }
            },
            FsRequest::ListDir => {
                if self.exists {
                    FsReply::Names(self.names())
                } else {
                    not_found()
                }
            },
        };
        proof {
            self.lemma_view_wf();
        }
        reply
    }
}

} // verus!
