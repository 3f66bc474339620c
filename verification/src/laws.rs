//! What holds of the operations taken together.

use vstd::prelude::*;
use crate::error::Error;
use crate::files::{
    add_tag_outcome, first_with_cid, is_first_with_cid, lemma_first_with_cid, records_without_cid,
    remove_tag_outcome,
};
use crate::model;
use crate::model::{all_sound, files_of, run, step, valid_registry, with_files, Call, Registry};
use crate::record::{tags_without, upload_rejection, FileRecord};

verus! {

/// What stays after the files under a content identifier are removed was
/// there before and is not found under the identifier; where no file is
/// found under it, the files stay unchanged.
pub proof fn lemma_without_cid(records: Seq<FileRecord>, file_cid: Seq<u8>)
    ensures
        forall|k: int|
            0 <= k < records_without_cid(records, file_cid).len() ==> records.contains(
                #[trigger] records_without_cid(records, file_cid)[k],
            ) && records_without_cid(records, file_cid)[k].file_cid != file_cid,
        (forall|k: int| 0 <= k < records.len() ==> records[k].file_cid != file_cid)
            ==> records_without_cid(records, file_cid) == records,
{
    let pred = |r: FileRecord| r.file_cid != file_cid;
    let kept = records.filter(pred);
    assert forall|k: int| 0 <= k < kept.len() implies records.contains(#[trigger] kept[k])
        && kept[k].file_cid != file_cid by {
        records.lemma_filter_pred(pred, k);
        assert(kept.contains(kept[k]));
        records.lemma_filter_contains_rev(pred, kept[k]);
    }
    if forall|k: int| 0 <= k < records.len() ==> records[k].file_cid != file_cid {
        lemma_filter_keeps_all(records, pred);
    }
}

/// The files that stay after a removal are sound if the files were.
pub proof fn lemma_remove_file_keeps_files_sound(
    records: Seq<FileRecord>,
    owner: Seq<u8>,
    file_cid: Seq<u8>,
)
    requires
        all_sound(records, owner),
    ensures
        all_sound(records_without_cid(records, file_cid), owner),
{
    lemma_without_cid(records, file_cid);
    let kept = records_without_cid(records, file_cid);
    assert forall|k: int| 0 <= k < kept.len() implies (#[trigger] kept[k]).well_formed()
        && kept[k].uploader == owner by {
        assert(records.contains(kept[k]));
        let j = choose|j: int| 0 <= j < records.len() && records[j] == kept[k];
        assert(records[j].well_formed());
    }
}

/// An accepted tag keeps the owner's files sound: no tag comes to occur twice.
pub proof fn lemma_add_tag_keeps_files_sound(
    records: Seq<FileRecord>,
    owner: Seq<u8>,
    file_cid: Seq<u8>,
    tag: Seq<u8>,
)
    requires
        all_sound(records, owner),
    ensures
        match add_tag_outcome(records, file_cid, tag) {
            Ok(after) => after.len() == records.len() && all_sound(after, owner),
            Err(_) => true,
        },
{
    lemma_first_with_cid(records, file_cid);
    match add_tag_outcome(records, file_cid, tag) {
        Ok(after) => {
            let i = first_with_cid(records, file_cid).unwrap();
            let tags = records[i].file_tags;
            assert(records[i].well_formed());
            assert(tags.push(tag).no_duplicates()) by {
                assert forall|a: int, b: int|
                    0 <= a < tags.len() + 1 && 0 <= b < tags.len() + 1 && a != b implies tags.push(
                    tag,
                )[a] != tags.push(tag)[b] by {
                    if a == tags.len() {
                        assert(tags.contains(tags[b]));
                    } else if b == tags.len() {
                        assert(tags.contains(tags[a]));
                    }
                }
            }
            assert forall|k: int| 0 <= k < after.len() implies (#[trigger] after[k]).well_formed()
                && after[k].uploader == owner by {
                assert(records[k].well_formed());
            }
        },
        Err(_) => {},
    }
}

/// A removed tag keeps the owner's files sound.
pub proof fn lemma_remove_tag_keeps_files_sound(
    records: Seq<FileRecord>,
    owner: Seq<u8>,
    file_cid: Seq<u8>,
    tag: Seq<u8>,
)
    requires
        all_sound(records, owner),
    ensures
        match remove_tag_outcome(records, file_cid, tag) {
            Ok(after) => after.len() == records.len() && all_sound(after, owner),
            Err(_) => true,
        },
{
    lemma_first_with_cid(records, file_cid);
    match remove_tag_outcome(records, file_cid, tag) {
        Ok(after) => {
            let i = first_with_cid(records, file_cid).unwrap();
            assert(records[i].well_formed());
            lemma_tags_without(records[i].file_tags, tag);
            assert forall|k: int| 0 <= k < after.len() implies (#[trigger] after[k]).well_formed()
                && after[k].uploader == owner by {
                assert(records[k].well_formed());
            }
        },
        Err(_) => {},
    }
}

/// Taking a tag out leaves every other tag and not the tag itself; tags
/// that did not repeat still do not, and tags without the tag stay as
/// they are.
pub proof fn lemma_tags_without(tags: Seq<Seq<u8>>, tag: Seq<u8>)
    ensures
        !tags_without(tags, tag).contains(tag),
        forall|t: Seq<u8>| t != tag ==> (tags_without(tags, tag).contains(t) <==> tags.contains(t)),
        tags.no_duplicates() ==> tags_without(tags, tag).no_duplicates(),
        !tags.contains(tag) ==> tags_without(tags, tag) == tags,
    decreases tags.len(),
{
    let kept = tags_without(tags, tag);
    reveal(Seq::filter);
    if tags.len() == 0 {
        assert(kept =~= tags);
    } else {
        let front = tags.drop_last();
        let last = tags.last();
        lemma_tags_without(front, tag);
        let kept_front = tags_without(front, tag);
        assert(tags =~= front.push(last));
        assert forall|t: Seq<u8>| front.contains(t) implies tags.contains(t) by {
            let j = choose|j: int| 0 <= j < front.len() && front[j] == t;
            assert(tags[j] == t);
        }
        assert forall|t: Seq<u8>| tags.contains(t) implies front.contains(t) || t == last by {
            let j = choose|j: int| 0 <= j < tags.len() && tags[j] == t;
            if j < front.len() {
                assert(front[j] == t);
            }
        }
        assert(tags.contains(last)) by {
            assert(tags[tags.len() - 1] == last);
        }
        if last != tag {
            assert(kept == kept_front.push(last));
            assert forall|t: Seq<u8>| kept.contains(t) <==> (kept_front.contains(t) || t == last) by {
                if kept.contains(t) {
                    let j = choose|j: int| 0 <= j < kept.len() && kept[j] == t;
                    if j < kept_front.len() {
                        assert(kept_front[j] == t);
                    }
                }
                if kept_front.contains(t) {
                    let j = choose|j: int| 0 <= j < kept_front.len() && kept_front[j] == t;
                    assert(kept[j] == t);
                }
                if t == last {
                    assert(kept[kept.len() - 1] == t);
                }
            }
            if tags.no_duplicates() {
                assert(front.no_duplicates());
                assert(!front.contains(last)) by {
                    if front.contains(last) {
                        let j = choose|j: int| 0 <= j < front.len() && front[j] == last;
                        assert(tags[j] == tags[tags.len() - 1]);
                    }
                }
                assert forall|a: int, b: int|
                    0 <= a < kept.len() && 0 <= b < kept.len() && a != b implies kept[a]
                    != kept[b] by {
                    assert(kept_front.no_duplicates());
                    if a == kept_front.len() {
                        assert(kept_front.contains(kept_front[b]));
                        assert(front.contains(kept_front[b]));
                    } else if b == kept_front.len() {
                        assert(kept_front.contains(kept_front[a]));
                        assert(front.contains(kept_front[a]));
                    }
                }
            }
            if !tags.contains(tag) {
                assert(!front.contains(tag));
            }
        } else {
            assert(kept == kept_front);
            if tags.no_duplicates() {
                assert(front.no_duplicates());
            }
        }
    }
}

/// Whether `tag` occurs at exactly one place of `tags`.
pub open spec fn occurs_once(tags: Seq<Seq<u8>>, tag: Seq<u8>) -> bool {
    exists|k: int|
        0 <= k < tags.len() && #[trigger] tags[k] == tag && forall|j: int|
            0 <= j < tags.len() && #[trigger] tags[j] == tag ==> j == k
}

/// After an accepted upload the caller's files end with a descriptor that
/// holds exactly the uploaded fields, the clock value and the caller, and
/// no tags; the files that the caller had before stand in front of it.
pub proof fn lemma_upload_round_trip(
    registry: Registry,
    caller: Seq<u8>,
    timestamp: u64,
    file_hash: Seq<u8>,
    file_size: u64,
    file_name: Seq<u8>,
    file_type: Seq<u8>,
    file_cid: Seq<u8>,
)
    requires
        upload_rejection(file_hash, file_size, file_name, file_type) is None,
    ensures
        model::upload_file(
            registry,
            caller,
            timestamp,
            file_hash,
            file_size,
            file_name,
            file_type,
            file_cid,
        ) is Ok,
        ({
            let after = model::upload_file(
                registry,
                caller,
                timestamp,
                file_hash,
                file_size,
                file_name,
                file_type,
                file_cid,
            )->Ok_0;
            let record = FileRecord {
                file_hash,
                file_size,
                file_name,
                file_type,
                file_tags: Seq::empty(),
                file_cid,
                timestamp,
                uploader: caller,
            };
            &&& files_of(after, caller).contains(record)
            &&& files_of(after, caller).last() == record
            &&& files_of(after, caller).drop_last() == files_of(registry, caller)
        }),
{
    let after = model::upload_file(
        registry,
        caller,
        timestamp,
        file_hash,
        file_size,
        file_name,
        file_type,
        file_cid,
    )->Ok_0;
    let record = FileRecord::fresh(
        file_hash,
        file_size,
        file_name,
        file_type,
        file_cid,
        timestamp,
        caller,
    );
    let owned = files_of(after, caller);
    assert(owned == files_of(registry, caller).push(record));
    assert(owned[owned.len() - 1] == record);
    assert(owned.drop_last() =~= files_of(registry, caller));
}

/// A call changes the files of nobody but its caller.
pub proof fn lemma_step_touches_caller_only(registry: Registry, call: Call, who: Seq<u8>)
    requires
        who != call.caller(),
    ensures
        files_of(step(registry, call), who) == files_of(registry, who),
{
}

/// A call on a valid registry leaves a valid registry.
pub proof fn lemma_step_keeps_valid(registry: Registry, call: Call)
    requires
        valid_registry(registry),
    ensures
        valid_registry(step(registry, call)),
{
    let caller = call.caller();
    let owned = files_of(registry, caller);
    let after = step(registry, call);
    assert(all_sound(owned, caller)) by {
        if registry.contains_key(caller) {
            assert(model::valid_files(registry[caller], caller));
        }
    }
    match call {
        Call::UploadFile {
            caller,
            timestamp,
            file_hash,
            file_size,
            file_name,
            file_type,
            file_cid,
        } => {
            if call.outcome(registry) is Ok {
                let record = FileRecord::fresh(
                    file_hash,
                    file_size,
                    file_name,
                    file_type,
                    file_cid,
                    timestamp,
                    caller,
                );
                assert(record.file_tags.no_duplicates());
                assert(all_sound(owned.push(record), caller));
            }
        },
        Call::RemoveFile { caller, file_cid } => {
            lemma_remove_file_keeps_files_sound(owned, caller, file_cid);
        },
        Call::AddTag { caller, file_cid, tag } => {
            lemma_add_tag_keeps_files_sound(owned, caller, file_cid, tag);
        },
        Call::RemoveTag { caller, file_cid, tag } => {
            lemma_remove_tag_keeps_files_sound(owned, caller, file_cid, tag);
        },
    }
    assert forall|who: Seq<u8>| #[trigger] after.contains_key(who) implies model::valid_files(
        after[who],
        who,
    ) by {
        if who != caller {
            assert(registry.contains_key(who));
        }
    }
}

/// Every registry that a history of calls leaves is valid: each owner in
/// it has at least one file, and each file has a hash, a size above zero,
/// a name and a type, carries no tag twice, and names its owner as uploader.
pub proof fn lemma_run_is_valid(calls: Seq<Call>)
    ensures
        valid_registry(run(calls)),
    decreases calls.len(),
{
    if calls.len() > 0 {
        lemma_run_is_valid(calls.drop_last());
        lemma_step_keeps_valid(run(calls.drop_last()), calls.last());
    }
}

/// An identity that never uploaded owns no files, whatever else was called.
pub proof fn lemma_never_uploaded_owns_nothing(calls: Seq<Call>, who: Seq<u8>)
    requires
        forall|i: int|
            0 <= i < calls.len() && (#[trigger] calls[i]) is UploadFile ==> calls[i].caller() != who,
    ensures
        files_of(run(calls), who) == Seq::<FileRecord>::empty(),
        !run(calls).contains_key(who),
    decreases calls.len(),
{
    if calls.len() > 0 {
        let earlier = calls.drop_last();
        let call = calls.last();
        assert forall|i: int| 0 <= i < earlier.len() && (#[trigger] earlier[i]) is UploadFile implies earlier[i].caller()
            != who by {
            assert(earlier[i] == calls[i]);
        }
        lemma_never_uploaded_owns_nothing(earlier, who);
        assert(calls[calls.len() - 1] == call);
        if call.caller() != who {
            lemma_step_touches_caller_only(run(earlier), call, who);
        }
    }
}

/// Once a tag has been added to a file, adding it again is rejected as a
/// duplicate, and the file carries the tag exactly once.
pub proof fn lemma_add_tag_twice(registry: Registry, caller: Seq<u8>, file_cid: Seq<u8>, tag: Seq<u8>)
    requires
        model::add_tag(registry, caller, file_cid, tag) is Ok,
    ensures
        ({
            let after = model::add_tag(registry, caller, file_cid, tag)->Ok_0;
            let owned = files_of(after, caller);
            &&& model::add_tag(after, caller, file_cid, tag) == Err::<Registry, Error>(
                Error::DuplicateTag,
            )
            &&& step(after, Call::AddTag { caller, file_cid, tag }) == after
            &&& first_with_cid(owned, file_cid) == first_with_cid(files_of(registry, caller), file_cid)
            &&& first_with_cid(owned, file_cid) is Some
            &&& occurs_once(owned[first_with_cid(owned, file_cid)->Some_0].file_tags, tag)
        }),
{
    let before = files_of(registry, caller);
    lemma_first_with_cid(before, file_cid);
    let i = first_with_cid(before, file_cid)->Some_0;
    let changed = before.update(i, before[i].with_tag(tag));
    let after = model::add_tag(registry, caller, file_cid, tag)->Ok_0;
    assert(after == with_files(registry, caller, changed));
    let owned = files_of(after, caller);
    assert(owned == changed);
    assert(is_first_with_cid(owned, file_cid, i)) by {
        assert forall|j: int| 0 <= j < i implies owned[j].file_cid != file_cid by {
            assert(before[j].file_cid != file_cid);
        }
    }
    lemma_first_with_cid(owned, file_cid);
    let tags = before[i].file_tags;
    assert(owned[i].file_tags == tags.push(tag));
    assert(owned[i].has_tag(tag)) by {
        assert(tags.push(tag)[tags.len() as int] == tag);
    }
    assert(occurs_once(tags.push(tag), tag)) by {
        let k = tags.len() as int;
        assert(tags.push(tag)[k] == tag);
        assert forall|j: int| 0 <= j < tags.push(tag).len() && #[trigger] tags.push(tag)[j]
            == tag implies j == k by {
            if j < k {
                assert(tags.contains(tags[j]));
            }
        }
    }
}

/// In a valid registry a tag that is rejected as a duplicate is on the
/// file exactly once.
pub proof fn lemma_duplicate_tag_occurs_once(
    registry: Registry,
    caller: Seq<u8>,
    file_cid: Seq<u8>,
    tag: Seq<u8>,
)
    requires
        valid_registry(registry),
        model::add_tag(registry, caller, file_cid, tag) == Err::<Registry, Error>(
            Error::DuplicateTag,
        ),
    ensures
        first_with_cid(files_of(registry, caller), file_cid) is Some,
        occurs_once(
            files_of(registry, caller)[first_with_cid(
                files_of(registry, caller),
                file_cid,
            )->Some_0].file_tags,
            tag,
        ),
{
    let owned = files_of(registry, caller);
    lemma_first_with_cid(owned, file_cid);
    let i = first_with_cid(owned, file_cid)->Some_0;
    assert(registry.contains_key(caller));
    assert(model::valid_files(registry[caller], caller));
    assert(owned[i].well_formed());
    let tags = owned[i].file_tags;
    let k = choose|k: int| 0 <= k < tags.len() && tags[k] == tag;
    assert(tags[k] == tag);
}

/// Removing a tag that the file does not carry is rejected, and the
/// registry stays as it was.
pub proof fn lemma_absent_tag_is_rejected(
    registry: Registry,
    caller: Seq<u8>,
    file_cid: Seq<u8>,
    tag: Seq<u8>,
)
    requires
        first_with_cid(files_of(registry, caller), file_cid) is Some,
        !files_of(registry, caller)[first_with_cid(
            files_of(registry, caller),
            file_cid,
        )->Some_0].has_tag(tag),
    ensures
        model::remove_tag(registry, caller, file_cid, tag) == Err::<Registry, Error>(
            Error::TagNotPresent,
        ),
        step(registry, Call::RemoveTag { caller, file_cid, tag }) == registry,
{
    lemma_first_with_cid(files_of(registry, caller), file_cid);
}

/// Removing a tag that the file carries takes it off: afterwards the file
/// does not carry it, and removing it again is rejected.
pub proof fn lemma_remove_tag_twice(
    registry: Registry,
    caller: Seq<u8>,
    file_cid: Seq<u8>,
    tag: Seq<u8>,
)
    requires
        model::remove_tag(registry, caller, file_cid, tag) is Ok,
    ensures
        model::remove_tag(
            model::remove_tag(registry, caller, file_cid, tag)->Ok_0,
            caller,
            file_cid,
            tag,
        ) == Err::<Registry, Error>(Error::TagNotPresent),
{
    let before = files_of(registry, caller);
    lemma_first_with_cid(before, file_cid);
    let i = first_with_cid(before, file_cid)->Some_0;
    let changed = before.update(i, before[i].without_tag(tag));
    let after = model::remove_tag(registry, caller, file_cid, tag)->Ok_0;
    assert(after == with_files(registry, caller, changed));
    let owned = files_of(after, caller);
    assert(owned == changed);
    assert(is_first_with_cid(owned, file_cid, i)) by {
        assert forall|j: int| 0 <= j < i implies owned[j].file_cid != file_cid by {
            assert(before[j].file_cid != file_cid);
        }
    }
    lemma_first_with_cid(owned, file_cid);
    lemma_tags_without(before[i].file_tags, tag);
}

/// Where the caller has files but none under the content identifier,
/// removing that identifier succeeds and leaves the registry as it was.
pub proof fn lemma_unknown_cid_removes_nothing(
    registry: Registry,
    caller: Seq<u8>,
    file_cid: Seq<u8>,
)
    requires
        files_of(registry, caller).len() > 0,
        forall|k: int|
            0 <= k < files_of(registry, caller).len() ==> files_of(registry, caller)[k].file_cid
                != file_cid,
    ensures
        model::remove_file(registry, caller, file_cid) == Ok::<Registry, Error>(registry),
{
    lemma_without_cid(files_of(registry, caller), file_cid);
    assert(with_files(registry, caller, files_of(registry, caller)) =~= registry);
}

/// Removing a content identifier leaves the caller no file under it, so
/// that a second removal finds the caller's files unchanged.
pub proof fn lemma_removed_cid_is_gone(registry: Registry, caller: Seq<u8>, file_cid: Seq<u8>)
    requires
        model::remove_file(registry, caller, file_cid) is Ok,
    ensures
        forall|k: int|
            0 <= k < files_of(model::remove_file(registry, caller, file_cid)->Ok_0, caller).len()
                ==> (#[trigger] files_of(
                model::remove_file(registry, caller, file_cid)->Ok_0,
                caller,
            )[k]).file_cid != file_cid,
{
    let before = files_of(registry, caller);
    lemma_without_cid(before, file_cid);
    let kept = records_without_cid(before, file_cid);
    let after = model::remove_file(registry, caller, file_cid)->Ok_0;
    assert(files_of(after, caller) =~= kept);
}

/// A filter that every element passes changes nothing.
proof fn lemma_filter_keeps_all<A>(s: Seq<A>, pred: spec_fn(A) -> bool)
    requires
        forall|k: int| 0 <= k < s.len() ==> pred(s[k]),
    ensures
        s.filter(pred) == s,
    decreases s.len(),
{
    reveal(Seq::filter);
    if s.len() > 0 {
        lemma_filter_keeps_all(s.drop_last(), pred);
        assert(s.drop_last().push(s.last()) =~= s);
    } else {
        assert(s.filter(pred) =~= s);
    }
}

} // verus!
