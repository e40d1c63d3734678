//! What the operations of the store amount to on a file system that works.
//!
//! A file system is taken here as a function from a directory and a request
//! to a reply. It is faithful if each of its replies is one that
//! [`DirView::answers`] allows. The theorems of this module run the steps of
//! the store against any faithful file system and say what comes out.

use vstd::prelude::*;
use vstd::utf8::*;
use crate::entry::{EntryView, expiry};
use crate::error::{EncodingError, IoError, IoErrorKind, StoreError};
use crate::fs::{DirView, FsReplyView, FsRequestView};
use crate::record::{RecordView, lemma_record_round_trip, parse_record};
use crate::store::{
    OutcomeView, PendingView, StepView, delete_start, get_start, list_start, listed_tags, refused,
    resume_step, store_start, temp_file_name, write_request,
};
use crate::tag::{
    file_name_tag, has_forbidden_char, is_forbidden_char, is_name_char, is_path_segment,
    lemma_file_name_is_segment, lemma_file_name_canonical, lemma_file_name_injective,
    lemma_file_name_round_trip, lemma_file_name_safe, tag_file_name, valid_tag,
};

verus! {

/// A file system: the reply it gives to a request on a directory.
pub type FileSystem = spec_fn(DirView, FsRequestView) -> FsReplyView;

/// Whether every reply of `fs` is one that the directory allows.
pub open spec fn faithful(fs: FileSystem) -> bool {
    forall|dir: DirView, request: FsRequestView|
        dir.wf() ==> #[trigger] dir.answers(request, fs(dir, request))
}

/// One request of `step` carried out by `fs` on `dir` at the time `now`:
/// the directory and the step afterwards. A finished step stays as it is.
pub open spec fn advance(fs: FileSystem, dir: DirView, step: StepView, now: nat) -> (
    DirView,
    StepView,
) {
    match step {
        StepView::Finished(_) => (dir, step),
        StepView::Perform { request, pending } => (
            dir.after(request),
            resume_step(pending, fs(dir, request), now),
        ),
    }
}

/// An operation carried out from its first step: no operation makes more
/// than two requests.
pub open spec fn run(fs: FileSystem, dir: DirView, step: StepView, now: nat) -> (
    DirView,
    StepView,
) {
    let (dir1, step1) = advance(fs, dir, step, now);
    advance(fs, dir1, step1, now)
}

/// How many requests a step may still lead to, at most.
pub open spec fn requests_left(step: StepView) -> nat {
    match step {
        StepView::Finished(_) => 0,
        StepView::Perform { pending: PendingView::AwaitingDir { .. }, .. } => 2,
        StepView::Perform { pending: PendingView::AwaitingRead { .. }, .. } => 2,
        StepView::Perform { .. } => 1,
    }
}

/// Every reply brings an operation nearer to its end, whatever the reply.
pub proof fn lemma_resume_progress(
    request: FsRequestView,
    pending: PendingView,
    reply: FsReplyView,
    now: nat,
)
    ensures
        requests_left(resume_step(pending, reply, now)) < requests_left(
            StepView::Perform { request, pending },
        ),
{
}

/// After two requests at most an operation is over, on any file system.
pub proof fn lemma_run_finishes(fs: FileSystem, dir: DirView, step: StepView, now: nat)
    ensures
        run(fs, dir, step, now).1 is Finished,
{
    if let StepView::Perform { request, pending } = step {
        lemma_resume_progress(request, pending, fs(dir, request), now);
        let (dir1, step1) = advance(fs, dir, step, now);
        if let StepView::Perform { request: request1, pending: pending1 } = step1 {
            lemma_resume_progress(request1, pending1, fs(dir1, request1), now);
        }
    }
}

/// The step that ends an operation well.
pub open spec fn done(outcome: OutcomeView) -> StepView {
    StepView::Finished(Ok(outcome))
}

/// The directory after `entry` was stored under `tag`.
pub open spec fn dir_with(dir: DirView, tag: Seq<char>, entry: EntryView<Seq<u8>>) -> DirView {
    DirView {
        exists: true,
        files: dir.files.remove(temp_file_name(tag_file_name(tag))).insert(
            tag_file_name(tag),
            (RecordView { tag, entry }).to_bytes(),
        ),
    }
}

/// The directory after the entry of `tag` was deleted.
pub open spec fn dir_without(dir: DirView, tag: Seq<char>) -> DirView {
    DirView { exists: dir.exists, files: dir.files.remove(tag_file_name(tag)) }
}

/// The tags that have a file in the directory.
pub open spec fn stored_tags(dir: DirView) -> Set<Seq<char>> {
    Set::new(|tag: Seq<char>| valid_tag(tag) && dir.has(tag_file_name(tag)))
}

/// What a lookup at the time `now` is to find for an entry.
pub open spec fn content_at(entry: EntryView<Seq<u8>>, now: nat) -> Option<Seq<u8>> {
    if entry.is_valid_at(now) {
        Some(entry.content)
    } else {
        None
    }
}

/// A request leaves a directory well formed.
pub proof fn lemma_after_wf(dir: DirView, request: FsRequestView)
    requires
        dir.wf(),
    ensures
        dir.after(request).wf(),
{
    match request {
        FsRequestView::WriteFile { name, temp_name, bytes } => {
            assert(dir.files.remove(temp_name).dom() =~= dir.files.dom().remove(temp_name));
            assert(dir.files.remove(temp_name).insert(name, bytes).dom() =~= dir.files.dom().remove(
                temp_name,
            ).insert(name));
        },
        FsRequestView::RemoveFile { name } => {
            assert(dir.files.remove(name).dom() =~= dir.files.dom().remove(name));
            if !dir.exists {
                assert(dir.files.remove(name) =~= dir.files);
            }
        },
        _ => {},
    }
}

/// No file name of a tag is the name of a temporary file.
pub proof fn lemma_temp_name_is_no_tag(name: Seq<char>, tag: Seq<char>)
    ensures
        temp_file_name(name) != tag_file_name(tag),
        file_name_tag(temp_file_name(name)) is None,
{
    reveal_strlit(".tmp");
    let temp = temp_file_name(name);
    assert(temp[name.len() as int] == '.');
    lemma_file_name_safe(tag);
    if temp == tag_file_name(tag) {
        assert(is_name_char(tag_file_name(tag)[name.len() as int]));
    }
    if file_name_tag(temp) is Some {
        let other = file_name_tag(temp).unwrap();
        lemma_file_name_canonical(temp);
        lemma_file_name_safe(other);
        assert(is_name_char(tag_file_name(other)[name.len() as int]));
    }
}

/// The files that the operations on a valid tag name, the file of the tag
/// and the temporary file of a write, lie inside the directory of the store.
pub proof fn lemma_names_stay_inside(tag: Seq<char>)
    requires
        valid_tag(tag),
    ensures
        is_path_segment(tag_file_name(tag)),
        is_path_segment(temp_file_name(tag_file_name(tag))),
{
    reveal_strlit(".tmp");
    let name = tag_file_name(tag);
    let temp = temp_file_name(name);
    lemma_file_name_is_segment(tag);
    lemma_file_name_safe(tag);
    assert(temp.len() == name.len() + 4);
    if has_forbidden_char(temp) {
        let i = choose|i: int| 0 <= i < temp.len() && is_forbidden_char(temp[i]);
        if i < name.len() {
            assert(temp[i] == name[i]);
            assert(is_name_char(name[i]));
        } else {
            assert(temp[i] == ".tmp"@[i - name.len()]);
        }
    }
}

/// An operation on a tag that is refused ends at once with the reason, and
/// leaves the directory as it is.
pub proof fn lemma_refused_tag(fs: FileSystem, dir: DirView, tag: Seq<char>, now: nat)
    requires
        !valid_tag(tag),
    ensures
        forall|entry: EntryView<Seq<u8>>| #[trigger]
            run(fs, dir, store_start(tag, entry), now) == (dir, refused(tag)),
        run(fs, dir, get_start(tag), now) == (dir, refused(tag)),
        run(fs, dir, delete_start(tag), now) == (dir, refused(tag)),
        refused(tag) matches StepView::Finished(Err(StoreError::InvalidTag(_))),
{
}

/// Storing an entry under a valid tag succeeds, whether or not the
/// directory exists, and leaves the entry in the file of the tag.
pub proof fn lemma_store(
    fs: FileSystem,
    dir: DirView,
    tag: Seq<char>,
    entry: EntryView<Seq<u8>>,
    now: nat,
)
    requires
        faithful(fs),
        dir.wf(),
        valid_tag(tag),
    ensures
        run(fs, dir, store_start(tag, entry), now) == (
            dir_with(dir, tag, entry),
            done(OutcomeView::Stored),
        ),
        dir_with(dir, tag, entry).wf(),
{
    let made = dir.after(FsRequestView::CreateDir);
    assert(dir.answers(FsRequestView::CreateDir, fs(dir, FsRequestView::CreateDir)));
    assert(made.answers(write_request(tag, entry), fs(made, write_request(tag, entry))));
}

/// Looking up a valid tag whose file holds `entry` gives the content of the
/// entry while it is valid and nothing once it has expired.
pub proof fn lemma_get_stored(
    fs: FileSystem,
    dir: DirView,
    tag: Seq<char>,
    entry: EntryView<Seq<u8>>,
    now: nat,
)
    requires
        faithful(fs),
        dir.wf(),
        valid_tag(tag),
        (RecordView { tag, entry }).wf(),
        dir.has(tag_file_name(tag)),
        dir.files[tag_file_name(tag)] == (RecordView { tag, entry }).to_bytes(),
    ensures
        run(fs, dir, get_start(tag), now).1 == done(OutcomeView::Content(content_at(entry, now))),
        entry.is_valid_at(now) ==> run(fs, dir, get_start(tag), now).0 == dir,
        !entry.is_valid_at(now) ==> run(fs, dir, get_start(tag), now).0 == dir_without(dir, tag),
{
    let name = tag_file_name(tag);
    let read = FsRequestView::ReadFile { name };
    let remove = FsRequestView::RemoveFile { name };
    lemma_record_round_trip(RecordView { tag, entry });
    assert(dir.answers(read, fs(dir, read)));
    assert(dir.answers(remove, fs(dir, remove)));
}

/// Storing and then looking up returns what was stored: the content while
/// the entry is valid, nothing once it has expired.
pub proof fn lemma_get_after_store(
    fs: FileSystem,
    dir: DirView,
    tag: Seq<char>,
    entry: EntryView<Seq<u8>>,
    now: nat,
)
    requires
        faithful(fs),
        dir.wf(),
        valid_tag(tag),
        (RecordView { tag, entry }).wf(),
    ensures
        ({
            let (stored, first) = run(fs, dir, store_start(tag, entry), now);
            &&& first == done(OutcomeView::Stored)
            &&& run(fs, stored, get_start(tag), now).1 == done(
                OutcomeView::Content(content_at(entry, now)),
            )
        }),
{
    lemma_store(fs, dir, tag, entry, now);
    lemma_get_stored(fs, dir_with(dir, tag, entry), tag, entry, now);
}

/// An entry stored without a lifetime is found at any later time.
pub proof fn lemma_get_after_store_forever(
    fs: FileSystem,
    dir: DirView,
    tag: Seq<char>,
    content: Seq<u8>,
    stored_at: nat,
    now: nat,
)
    requires
        faithful(fs),
        dir.wf(),
        valid_tag(tag),
        stored_at <= u128::MAX,
        encode_utf8(tag).len() <= u64::MAX,
        content.len() <= u64::MAX,
    ensures
        ({
            let entry = EntryView { update_time: stored_at, expires_at: expiry(stored_at, None), content };
            let (stored, _) = run(fs, dir, store_start(tag, entry), stored_at);
            run(fs, stored, get_start(tag), now).1 == done(OutcomeView::Content(Some(content)))
        }),
{
    let entry = EntryView { update_time: stored_at, expires_at: expiry(stored_at, None), content };
    lemma_store(fs, dir, tag, entry, stored_at);
    lemma_get_stored(fs, dir_with(dir, tag, entry), tag, entry, now);
}

/// An entry stored with a lifetime above zero is found at the time it was
/// stored, and no longer once the lifetime has passed.
pub proof fn lemma_get_after_store_with_lifetime(
    fs: FileSystem,
    dir: DirView,
    tag: Seq<char>,
    content: Seq<u8>,
    stored_at: nat,
    lifetime: nat,
    later: nat,
)
    requires
        faithful(fs),
        dir.wf(),
        valid_tag(tag),
        stored_at < u128::MAX,
        lifetime > 0,
        later >= stored_at + lifetime,
        encode_utf8(tag).len() <= u64::MAX,
        content.len() <= u64::MAX,
    ensures
        ({
            let entry = EntryView {
                update_time: stored_at,
                expires_at: expiry(stored_at, Some(lifetime)),
                content,
            };
            let (stored, _) = run(fs, dir, store_start(tag, entry), stored_at);
            &&& run(fs, stored, get_start(tag), stored_at).1 == done(
                OutcomeView::Content(Some(content)),
            )
            &&& run(fs, stored, get_start(tag), later).1 == done(OutcomeView::Content(None))
        }),
{
    let entry = EntryView {
        update_time: stored_at,
        expires_at: expiry(stored_at, Some(lifetime)),
        content,
    };
    lemma_store(fs, dir, tag, entry, stored_at);
    lemma_get_stored(fs, dir_with(dir, tag, entry), tag, entry, stored_at);
    lemma_get_stored(fs, dir_with(dir, tag, entry), tag, entry, later);
}

/// Looking up a valid tag that has no file finds nothing, fails with
/// nothing, and leaves the directory as it is. A directory that was never
/// made has no files.
pub proof fn lemma_get_absent(fs: FileSystem, dir: DirView, tag: Seq<char>, now: nat)
    requires
        faithful(fs),
        dir.wf(),
        valid_tag(tag),
        !dir.has(tag_file_name(tag)),
    ensures
        run(fs, dir, get_start(tag), now) == (dir, done(OutcomeView::Content(None))),
{
    let read = FsRequestView::ReadFile { name: tag_file_name(tag) };
    assert(dir.answers(read, fs(dir, read)));
}

/// What a lookup finds depends on the file of its tag alone.
pub proof fn lemma_get_reads_one_file(
    fs: FileSystem,
    dir: DirView,
    other: DirView,
    tag: Seq<char>,
    now: nat,
)
    requires
        faithful(fs),
        dir.wf(),
        other.wf(),
        dir.exists == other.exists,
        dir.same_file(other, tag_file_name(tag)),
    ensures
        run(fs, dir, get_start(tag), now).1 == run(fs, other, get_start(tag), now).1,
{
    let name = tag_file_name(tag);
    let read = FsRequestView::ReadFile { name };
    let remove = FsRequestView::RemoveFile { name };
    assert(dir.answers(read, fs(dir, read)));
    assert(other.answers(read, fs(other, read)));
    assert(dir.answers(remove, fs(dir, remove)));
    assert(other.answers(remove, fs(other, remove)));
}

/// A write that is cut short harms no entry: a lookup of any tag finds
/// afterwards what it found before the write, or what it finds after the
/// whole write, and never a part of an entry.
pub proof fn lemma_write_cut_short(
    fs: FileSystem,
    dir: DirView,
    tag: Seq<char>,
    entry: EntryView<Seq<u8>>,
    left: DirView,
    other: Seq<char>,
    now: nat,
)
    requires
        faithful(fs),
        dir.wf(),
        left.wf(),
        valid_tag(tag),
        dir.cut_short(write_request(tag, entry), left),
    ensures
        run(fs, left, get_start(other), now).1 == run(fs, dir, get_start(other), now).1 || run(
            fs,
            left,
            get_start(other),
            now,
        ).1 == run(fs, dir.after(write_request(tag, entry)), get_start(other), now).1,
{
    let write = write_request(tag, entry);
    if left != dir.after(write) {
        lemma_temp_name_is_no_tag(tag_file_name(tag), other);
        assert(dir.same_file(left, tag_file_name(other)));
        lemma_get_reads_one_file(fs, left, dir, other, now);
    }
}

/// Storing under one tag and deleting one tag leave the file of every other
/// tag as it was, there or not.
pub proof fn lemma_other_tags_untouched(
    dir: DirView,
    tag: Seq<char>,
    entry: EntryView<Seq<u8>>,
    other: Seq<char>,
)
    requires
        other != tag,
    ensures
        dir_with(dir, tag, entry).files.contains_key(tag_file_name(other))
            == dir.files.contains_key(tag_file_name(other)),
        dir.files.contains_key(tag_file_name(other)) ==> dir_with(dir, tag, entry).files[tag_file_name(
            other,
        )] == dir.files[tag_file_name(other)],
        dir_without(dir, tag).files.contains_key(tag_file_name(other))
            == dir.files.contains_key(tag_file_name(other)),
        dir.files.contains_key(tag_file_name(other)) ==> dir_without(dir, tag).files[tag_file_name(
            other,
        )] == dir.files[tag_file_name(other)],
{
    lemma_temp_name_is_no_tag(tag_file_name(tag), other);
    if tag_file_name(other) == tag_file_name(tag) {
        lemma_file_name_injective(other, tag);
    }
}

/// Of two entries stored under one tag the second takes the place of the
/// first: the directory is as if the first had not been stored, and a
/// lookup finds the second alone.
pub proof fn lemma_store_overwrites(
    fs: FileSystem,
    dir: DirView,
    tag: Seq<char>,
    first: EntryView<Seq<u8>>,
    second: EntryView<Seq<u8>>,
    now: nat,
)
    requires
        faithful(fs),
        dir.wf(),
        valid_tag(tag),
        (RecordView { tag, entry: second }).wf(),
    ensures
        ({
            let (once, _) = run(fs, dir, store_start(tag, first), now);
            let (twice, stored) = run(fs, once, store_start(tag, second), now);
            &&& stored == done(OutcomeView::Stored)
            &&& twice == run(fs, dir, store_start(tag, second), now).0
            &&& run(fs, twice, get_start(tag), now).1 == done(
                OutcomeView::Content(content_at(second, now)),
            )
        }),
{
    lemma_store(fs, dir, tag, first, now);
    let once = dir_with(dir, tag, first);
    lemma_store(fs, once, tag, second, now);
    lemma_store(fs, dir, tag, second, now);
    let twice = dir_with(once, tag, second);
    assert(twice.files =~= dir_with(dir, tag, second).files);
    lemma_get_stored(fs, twice, tag, second, now);
}

/// Deleting a valid tag succeeds whether or not the tag has a file or the
/// directory exists, and a lookup afterwards finds nothing.
pub proof fn lemma_get_after_delete(fs: FileSystem, dir: DirView, tag: Seq<char>, now: nat)
    requires
        faithful(fs),
        dir.wf(),
        valid_tag(tag),
    ensures
        run(fs, dir, delete_start(tag), now) == (dir_without(dir, tag), done(OutcomeView::Deleted)),
        run(fs, dir_without(dir, tag), get_start(tag), now).1 == done(OutcomeView::Content(None)),
{
    let remove = FsRequestView::RemoveFile { name: tag_file_name(tag) };
    assert(dir.answers(remove, fs(dir, remove)));
    lemma_after_wf(dir, remove);
    lemma_get_absent(fs, dir_without(dir, tag), tag, now);
}

/// Storing under a tag adds that tag to the tags that have a file, and
/// deleting a tag takes it away; no other tag comes or goes.
pub proof fn lemma_stored_tags_change(dir: DirView, tag: Seq<char>, entry: EntryView<Seq<u8>>)
    requires
        dir.wf(),
        valid_tag(tag),
    ensures
        stored_tags(dir_with(dir, tag, entry)) == stored_tags(dir).insert(tag),
        stored_tags(dir_without(dir, tag)) == stored_tags(dir).remove(tag),
{
    assert forall|other: Seq<char>|
        stored_tags(dir_with(dir, tag, entry)).contains(other) == stored_tags(dir).insert(
            tag,
        ).contains(other) by {
        if other != tag {
            lemma_other_tags_untouched(dir, tag, entry, other);
        }
    }
    assert forall|other: Seq<char>|
        stored_tags(dir_without(dir, tag)).contains(other) == stored_tags(dir).remove(tag).contains(
            other,
        ) by {
        if other != tag {
            lemma_other_tags_untouched(dir, tag, entry, other);
        }
    }
    assert(stored_tags(dir_with(dir, tag, entry)) =~= stored_tags(dir).insert(tag));
    assert(stored_tags(dir_without(dir, tag)) =~= stored_tags(dir).remove(tag));
}

/// The tags read from file names are the tags of which one of the names is
/// the file name.
pub proof fn lemma_listed_tags(names: Seq<Seq<char>>, tag: Seq<char>)
    ensures
        listed_tags(names).contains(tag) <==> valid_tag(tag) && names.contains(tag_file_name(tag)),
    decreases names.len(),
{
    if names.len() > 0 {
        let before = listed_tags(names.drop_last());
        lemma_listed_tags(names.drop_last(), tag);
        let last = names.last();
        if listed_tags(names).contains(tag) {
            let i = choose|i: int| 0 <= i < listed_tags(names).len() && listed_tags(names)[i] == tag;
            if i < before.len() {
                assert(before[i] == tag);
                let j = choose|j: int|
                    0 <= j < names.drop_last().len() && names.drop_last()[j] == tag_file_name(tag);
                assert(names[j] == tag_file_name(tag));
            } else {
                assert(file_name_tag(last) == Some(tag));
                lemma_file_name_canonical(last);
                assert(names[names.len() - 1] == tag_file_name(tag));
            }
        }
        if valid_tag(tag) && names.contains(tag_file_name(tag)) {
            let j = choose|j: int| 0 <= j < names.len() && names[j] == tag_file_name(tag);
            if j < names.len() - 1 {
                assert(names.drop_last()[j] == tag_file_name(tag));
                let i = choose|i: int| 0 <= i < before.len() && before[i] == tag;
                assert(listed_tags(names)[i] == tag);
            } else {
                lemma_file_name_round_trip(tag);
                assert(listed_tags(names) == before.push(tag));
                assert(listed_tags(names)[before.len() as int] == tag);
            }
        }
    }
}

/// File names that differ stand for tags that differ.
pub proof fn lemma_listed_tags_distinct(names: Seq<Seq<char>>)
    requires
        names.no_duplicates(),
    ensures
        listed_tags(names).no_duplicates(),
    decreases names.len(),
{
    if names.len() > 0 {
        let before = listed_tags(names.drop_last());
        lemma_listed_tags_distinct(names.drop_last());
        let last = names.last();
        if let Some(tag) = file_name_tag(last) {
            lemma_file_name_canonical(last);
            lemma_listed_tags(names.drop_last(), tag);
            if before.contains(tag) {
                let j = choose|j: int|
                    0 <= j < names.drop_last().len() && names.drop_last()[j] == tag_file_name(tag);
                assert(names[j] == names[names.len() - 1]);
            }
            assert forall|i: int, j: int|
                0 <= i < before.push(tag).len() && 0 <= j < before.push(tag).len() && i
                    != j implies before.push(tag)[i] != before.push(tag)[j] by {
                if i < before.len() && j < before.len() {
                } else if i < before.len() {
                    assert(before.contains(before[i]));
                } else {
                    assert(before.contains(before[j]));
                }
            }
        }
    }
}

/// Listing gives each tag that has a file once, and no other; where the
/// directory was never made it gives none.
pub proof fn lemma_list_tags(fs: FileSystem, dir: DirView, now: nat)
    requires
        faithful(fs),
        dir.wf(),
    ensures
        run(fs, dir, list_start(), now).0 == dir,
        run(fs, dir, list_start(), now).1 matches StepView::Finished(Ok(OutcomeView::Tags(tags)))
            && tags.no_duplicates() && tags.to_set() == stored_tags(dir),
{
    assert(dir.answers(FsRequestView::ListDir, fs(dir, FsRequestView::ListDir)));
    if dir.exists {
        let names = fs(dir, FsRequestView::ListDir)->Names_0;
        let tags = listed_tags(names);
        lemma_listed_tags_distinct(names);
        assert forall|tag: Seq<char>| tags.to_set().contains(tag) == stored_tags(dir).contains(
            tag,
        ) by {
            lemma_listed_tags(names, tag);
            assert(names.contains(tag_file_name(tag)) == names.to_set().contains(
                tag_file_name(tag),
            ));
        }
        assert(tags.to_set() =~= stored_tags(dir));
    } else {
        assert(Seq::<Seq<char>>::empty().to_set() =~= stored_tags(dir));
    }
}


/// The elements of a finite set can be listed without naming one twice.
proof fn lemma_to_seq_distinct(set: Set<Seq<char>>)
    requires
        set.finite(),
    ensures
        set.to_seq().no_duplicates(),
        set.to_seq().to_set() == set,
    decreases set.len(),
{
    set.lemma_to_seq_to_set_id();
    if set.len() > 0 {
        let x = set.choose();
        let rest = set.remove(x).to_seq();
        lemma_to_seq_distinct(set.remove(x));
        let all = Seq::<Seq<char>>::empty().push(x) + rest;
        assert(set.to_seq() == all);
        assert forall|i: int, j: int| 0 <= i < all.len() && 0 <= j < all.len() && i != j implies all[i]
            != all[j] by {
            if i > 0 && j > 0 {
                assert(all[i] == rest[i - 1] && all[j] == rest[j - 1]);
            } else if i == 0 {
                assert(all[j] == rest[j - 1]);
                assert(rest.to_set().contains(rest[j - 1]));
            } else {
                assert(all[i] == rest[i - 1]);
                assert(rest.to_set().contains(rest[i - 1]));
            }
        }
    }
}

/// There is a faithful file system, so what is proved of all of them is
/// proved of something.
pub proof fn lemma_faithful_exists()
    ensures
        exists|fs: FileSystem| faithful(fs),
{
    let fs: FileSystem = |d: DirView, r: FsRequestView|
        choose|reply: FsReplyView| d.answers(r, reply);
    assert forall|dir: DirView, request: FsRequestView| dir.wf() implies #[trigger] dir.answers(
        request,
        fs(dir, request),
    ) by {
        let absent = FsReplyView::Failed(
            IoError { kind: IoErrorKind::NotFound, detail: arbitrary() },
        );
        let present = FsReplyView::Failed(
            IoError { kind: IoErrorKind::AlreadyExists, detail: arbitrary() },
        );
        let names = FsReplyView::Names(dir.files.dom().to_seq());
        lemma_to_seq_distinct(dir.files.dom());
        match request {
            FsRequestView::CreateDir => {
                assert(dir.answers(request, present) || dir.answers(request, FsReplyView::Done));
            },
            FsRequestView::ReadFile { name } => {
                assert(dir.answers(request, absent) || dir.answers(
                    request,
                    FsReplyView::Contents(dir.files[name]),
                ));
            },
            FsRequestView::WriteFile { .. } => {
                assert(dir.answers(request, absent) || dir.answers(request, FsReplyView::Done));
            },
            FsRequestView::RemoveFile { .. } => {
                assert(dir.answers(request, absent) || dir.answers(request, FsReplyView::Done));
            },
            FsRequestView::ListDir => {
                assert(dir.answers(request, absent) || dir.answers(request, names));
            },
        }
    }
    assert(faithful(fs));
}

} // verus!
