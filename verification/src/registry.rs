//! The registry itself: every owner's files, behind operations that take
//! the caller's identity and the clock value as arguments.

use vstd::prelude::*;
use crate::bytes::{address_eq, Address};
use crate::error::{Error, ErrorKind};
use crate::files::{
    add_tag_to, clone_files, first_with_cid, lemma_first_with_cid, records_view, remove_file_from,
    remove_tag_of, upload_to,
};
use crate::model;
use crate::model::{
    all_sound, files_of, step, valid_files, valid_registry, with_files, Call, Registry,
};
use crate::record::{FileMetadata, FileRecord};

verus! {

/// One owner and that owner's files.
struct OwnerFiles {
    owner: Address,
    files: Vec<FileMetadata>,
}

/// The registry of uploaded files, keyed by owner.
///
/// Its model is a map from each owner that has files to those files,
/// oldest first. An owner whose last file was removed is not told apart
/// from an identity that never uploaded. Every registry is valid in the
/// sense of [`valid_registry`], whatever was called on it.
pub struct Dcsc {
    entries: Vec<OwnerFiles>,
}

/// Whether entry `i` is the one that holds files of `who`.
spec fn holds(entries: Seq<OwnerFiles>, who: Seq<u8>, i: int) -> bool {
    0 <= i < entries.len() && entries[i].owner@ == who && entries[i].files.len() > 0
}

/// The map that a list of entries stands for.
spec fn entries_map(entries: Seq<OwnerFiles>) -> Registry {
    Map::new(
        |who: Seq<u8>| exists|i: int| holds(entries, who, i),
        |who: Seq<u8>| records_view(entries[choose|i: int| holds(entries, who, i)].files@),
    )
}

/// No identity has two entries.
spec fn distinct_owners(entries: Seq<OwnerFiles>) -> bool {
    forall|i: int, j: int|
        0 <= i < j < entries.len() ==> (#[trigger] entries[i]).owner@ != (#[trigger] entries[j]).owner@
}

/// Every file of every entry is well formed and names the entry's owner.
spec fn sound_entries(entries: Seq<OwnerFiles>) -> bool {
    forall|i: int, k: int|
        0 <= i < entries.len() && 0 <= k < entries[i].files.len() ==> {
            &&& (#[trigger] records_view(entries[i].files@)[k]).well_formed()
            &&& records_view(entries[i].files@)[k].uploader == entries[i].owner@
        }
}

/// What the entries of a registry satisfy at all times.
spec fn entries_ok(entries: Seq<OwnerFiles>) -> bool {
    distinct_owners(entries) && sound_entries(entries)
}

/// Each entry is found in the map under its owner, and nothing else is.
proof fn lemma_entries_map(entries: Seq<OwnerFiles>)
    requires
        distinct_owners(entries),
    ensures
        forall|i: int|
            0 <= i < entries.len() ==> files_of(entries_map(entries), (#[trigger] entries[i]).owner@)
                == records_view(entries[i].files@),
        forall|who: Seq<u8>|
            (forall|j: int| 0 <= j < entries.len() ==> (#[trigger] entries[j]).owner@ != who)
                ==> !entries_map(entries).contains_key(who),
{
    assert forall|i: int| 0 <= i < entries.len() implies files_of(
        entries_map(entries),
        (#[trigger] entries[i]).owner@,
    ) == records_view(entries[i].files@) by {
        let who = entries[i].owner@;
        if entries[i].files.len() > 0 {
            assert(holds(entries, who, i));
            let c = choose|c: int| holds(entries, who, c);
            assert(holds(entries, who, c));
            if c != i {
                assert(entries[c].owner@ == entries[i].owner@);
            }
        } else {
            if entries_map(entries).contains_key(who) {
                let c = choose|c: int| holds(entries, who, c);
                if c != i {
                    assert(entries[c].owner@ == entries[i].owner@);
                }
            }
            assert(records_view(entries[i].files@) =~= Seq::<FileRecord>::empty());
        }
    }
    assert forall|who: Seq<u8>|
        (forall|j: int| 0 <= j < entries.len() ==> (#[trigger] entries[j]).owner@ != who)
        implies !entries_map(entries).contains_key(who) by {
        if entries_map(entries).contains_key(who) {
            let c = choose|c: int| holds(entries, who, c);
            assert(entries[c].owner@ == who);
        }
    }
}

/// Sound entries stand for a valid registry.
proof fn lemma_entries_valid(entries: Seq<OwnerFiles>)
    requires
        entries_ok(entries),
    ensures
        valid_registry(entries_map(entries)),
{
    let m = entries_map(entries);
    assert forall|who: Seq<u8>| #[trigger] m.contains_key(who) implies valid_files(m[who], who) by {
        let c = choose|c: int| holds(entries, who, c);
        assert(holds(entries, who, c));
        let records = records_view(entries[c].files@);
        assert(m[who] == records);
        assert forall|k: int| 0 <= k < records.len() implies (#[trigger] records[k]).well_formed()
            && records[k].uploader == who by {
            assert(records_view(entries[c].files@)[k].well_formed());
        }
    }
}

/// Replacing the files of one entry changes the map for its owner alone.
proof fn lemma_entry_replaced(before: Seq<OwnerFiles>, after: Seq<OwnerFiles>, i: int)
    requires
        distinct_owners(before),
        0 <= i < before.len(),
        after.len() == before.len(),
        after[i].owner == before[i].owner,
        forall|j: int| 0 <= j < before.len() && j != i ==> after[j] == before[j],
    ensures
        distinct_owners(after),
        entries_map(after) == with_files(
            entries_map(before),
            before[i].owner@,
            records_view(after[i].files@),
        ),
{
    assert(distinct_owners(after)) by {
        assert forall|a: int, b: int| 0 <= a < b < after.len() implies (#[trigger] after[a]).owner@
            != (#[trigger] after[b]).owner@ by {
            assert(before[a].owner@ != before[b].owner@);
        }
    }
    lemma_entries_map(before);
    lemma_entries_map(after);
    let owner = before[i].owner@;
    let m0 = entries_map(before);
    let m1 = entries_map(after);
    let goal = with_files(m0, owner, records_view(after[i].files@));
    assert(files_of(m1, after[i].owner@) == records_view(after[i].files@));
    assert forall|who: Seq<u8>| who != owner implies (m1.contains_key(who) <==> m0.contains_key(
        who,
    )) && (m1.contains_key(who) ==> m1[who] == m0[who]) by {
        if m0.contains_key(who) {
            let c = choose|c: int| holds(before, who, c);
            assert(holds(before, who, c));
            assert(c != i);
            assert(holds(after, who, c));
            assert(files_of(m0, before[c].owner@) == records_view(before[c].files@));
            assert(files_of(m1, after[c].owner@) == records_view(after[c].files@));
        }
        if m1.contains_key(who) {
            let c = choose|c: int| holds(after, who, c);
            assert(holds(after, who, c));
            assert(c != i);
            assert(holds(before, who, c));
            assert(files_of(m0, before[c].owner@) == records_view(before[c].files@));
            assert(files_of(m1, after[c].owner@) == records_view(after[c].files@));
        }
    }
    if after[i].files.len() > 0 {
        assert(holds(after, owner, i));
    } else {
        assert(records_view(after[i].files@).len() == 0);
    }
    assert(m1 =~= goal);
}

/// A new entry for an identity that had none adds that identity to the map.
proof fn lemma_entry_added(before: Seq<OwnerFiles>, entry: OwnerFiles)
    requires
        distinct_owners(before),
        forall|j: int| 0 <= j < before.len() ==> (#[trigger] before[j]).owner@ != entry.owner@,
        entry.files.len() > 0,
    ensures
        distinct_owners(before.push(entry)),
        entries_map(before.push(entry)) == entries_map(before).insert(
            entry.owner@,
            records_view(entry.files@),
        ),
{
    let after = before.push(entry);
    let n = before.len() as int;
    assert(distinct_owners(after)) by {
        assert forall|a: int, b: int| 0 <= a < b < after.len() implies (#[trigger] after[a]).owner@
            != (#[trigger] after[b]).owner@ by {
            if b < n {
                assert(before[a].owner@ != before[b].owner@);
            } else {
                assert(before[a].owner@ != entry.owner@);
            }
        }
    }
    lemma_entries_map(before);
    lemma_entries_map(after);
    let owner = entry.owner@;
    let m0 = entries_map(before);
    let m1 = entries_map(after);
    assert(after[n] == entry);
    assert(holds(after, owner, n));
    assert(files_of(m1, after[n].owner@) == records_view(after[n].files@));
    assert forall|who: Seq<u8>| who != owner implies (m1.contains_key(who) <==> m0.contains_key(
        who,
    )) && (m1.contains_key(who) ==> m1[who] == m0[who]) by {
        if m0.contains_key(who) {
            let c = choose|c: int| holds(before, who, c);
            assert(holds(before, who, c));
            assert(after[c] == before[c]);
            assert(holds(after, who, c));
            assert(files_of(m0, before[c].owner@) == records_view(before[c].files@));
            assert(files_of(m1, after[c].owner@) == records_view(after[c].files@));
        }
        if m1.contains_key(who) {
            let c = choose|c: int| holds(after, who, c);
            assert(holds(after, who, c));
            assert(c != n);
            assert(after[c] == before[c]);
            assert(holds(before, who, c));
            assert(files_of(m0, before[c].owner@) == records_view(before[c].files@));
            assert(files_of(m1, after[c].owner@) == records_view(after[c].files@));
        }
    }
    assert(m1 =~= m0.insert(owner, records_view(entry.files@)));
}

/// The files of each of sound entries are sound.
proof fn lemma_entry_sound(entries: Seq<OwnerFiles>, i: int)
    requires
        sound_entries(entries),
        0 <= i < entries.len(),
    ensures
        all_sound(records_view(entries[i].files@), entries[i].owner@),
{
    let records = records_view(entries[i].files@);
    assert forall|k: int| 0 <= k < records.len() implies (#[trigger] records[k]).well_formed()
        && records[k].uploader == entries[i].owner@ by {
        assert(records_view(entries[i].files@)[k].well_formed());
    }
}

/// Entries stay sound when one of them gets sound files.
proof fn lemma_sound_after_replacing(before: Seq<OwnerFiles>, after: Seq<OwnerFiles>, i: int)
    requires
        sound_entries(before),
        0 <= i < before.len(),
        after.len() == before.len(),
        after[i].owner == before[i].owner,
        forall|j: int| 0 <= j < before.len() && j != i ==> after[j] == before[j],
        all_sound(records_view(after[i].files@), after[i].owner@),
    ensures
        sound_entries(after),
{
    assert forall|j: int, k: int| 0 <= j < after.len() && 0 <= k < after[j].files.len() implies {
        &&& (#[trigger] records_view(after[j].files@)[k]).well_formed()
        &&& records_view(after[j].files@)[k].uploader == after[j].owner@
    } by {
        if j != i {
            assert(records_view(before[j].files@)[k].well_formed());
        }
    }
}

/// Entries stay sound when an entry with sound files is added.
proof fn lemma_sound_after_adding(before: Seq<OwnerFiles>, entry: OwnerFiles)
    requires
        sound_entries(before),
        all_sound(records_view(entry.files@), entry.owner@),
    ensures
        sound_entries(before.push(entry)),
{
    let after = before.push(entry);
    assert forall|j: int, k: int| 0 <= j < after.len() && 0 <= k < after[j].files.len() implies {
        &&& (#[trigger] records_view(after[j].files@)[k]).well_formed()
        &&& records_view(after[j].files@)[k].uploader == after[j].owner@
    } by {
        if j < before.len() {
            assert(after[j] == before[j]);
            assert(records_view(before[j].files@)[k].well_formed());
        }
    }
}

/// Looks for the entry of `who`.
fn find_owner(entries: &Vec<OwnerFiles>, who: &Address) -> (found: Option<usize>)
    ensures
        match found {
            Some(i) => i < entries.len() && entries@[i as int].owner@ == who@,
            None => forall|j: int| 0 <= j < entries.len() ==> (#[trigger] entries@[j]).owner@ != who@,
        },
{
    let mut i: usize = 0;
    while i < entries.len()
        invariant
            i <= entries.len(),
            forall|j: int| 0 <= j < i ==> (#[trigger] entries@[j]).owner@ != who@,
        decreases entries.len() - i,
    {
        if address_eq(&entries[i].owner, who) {
            return Some(i);
        }
        i += 1;
    }
    None
}

/// Whether `listing` names each owner of `registry` once, with that
/// owner's files, and nobody else.
pub open spec fn lists(listing: Seq<(Address, Vec<FileMetadata>)>, registry: Registry) -> bool {
    &&& forall|i: int|
        0 <= i < listing.len() ==> registry.contains_key((#[trigger] listing[i]).0@)
            && registry[listing[i].0@] == records_view(listing[i].1@)
    &&& forall|i: int, j: int|
        0 <= i < j < listing.len() ==> (#[trigger] listing[i]).0@ != (#[trigger] listing[j]).0@
    &&& forall|who: Seq<u8>|
        registry.contains_key(who) ==> exists|i: int|
            0 <= i < listing.len() && (#[trigger] listing[i]).0@ == who
}

impl View for Dcsc {
    type V = Registry;

    closed spec fn view(&self) -> Registry {
        entries_map(self.entries@)
    }
}

impl Dcsc {
    #[verifier::type_invariant]
    spec fn sound(&self) -> bool {
        entries_ok(self.entries@)
    }

    /// A registry that holds no files.
    pub fn new() -> (registry: Self)
        ensures
            registry@ == Map::<Seq<u8>, Seq<FileRecord>>::empty(),
            valid_registry(registry@),
    {
        let registry = Dcsc { entries: Vec::new() };
        assert(registry@ =~= Map::<Seq<u8>, Seq<FileRecord>>::empty());
        registry
    }

    /// Records a file uploaded by `caller` at clock value `timestamp`.
    ///
    /// The upload is rejected, and nothing changes, exactly when the hash
    /// is empty, the size is zero, the name is empty or the type is empty;
    /// the first of these that holds gives the reason. Otherwise one
    /// descriptor without tags is appended to the caller's files. The
    /// content identifier is not checked, and may repeat.
    pub fn upload_file(
        &mut self,
        caller: Address,
        timestamp: u64,
        file_hash: Vec<u8>,
        file_size: u64,
        file_name: Vec<u8>,
        file_type: Vec<u8>,
        file_cid: Vec<u8>,
    ) -> (outcome: Result<(), Error>)
        ensures
            match model::upload_file(
                old(self)@,
                caller@,
                timestamp,
                file_hash@,
                file_size,
                file_name@,
                file_type@,
                file_cid@,
            ) {
                Ok(after) => outcome is Ok && final(self)@ == after,
                Err(reason) => outcome == Err::<(), Error>(reason) && final(self)@ == old(self)@,
            },
            final(self)@ == step(
                old(self)@,
                Call::UploadFile {
                    caller: caller@,
                    timestamp,
                    file_hash: file_hash@,
                    file_size,
                    file_name: file_name@,
                    file_type: file_type@,
                    file_cid: file_cid@,
                },
            ),
            outcome is Err <==> (file_hash@.len() == 0 || file_size == 0 || file_name@.len() == 0
                || file_type@.len() == 0),
            outcome is Err ==> outcome->Err_0.spec_kind() == ErrorKind::InvalidArgument,
            outcome is Ok ==> files_of(final(self)@, caller@) == files_of(old(self)@, caller@).push(
                FileRecord::fresh(
                    file_hash@,
                    file_size,
                    file_name@,
                    file_type@,
                    file_cid@,
                    timestamp,
                    caller@,
                ),
            ),
            forall|who: Seq<u8>|
                who != caller@ ==> files_of(final(self)@, who) == files_of(old(self)@, who),
            valid_registry(final(self)@),
    {
        proof {
            use_type_invariant(&*self);
            lemma_entries_map(self.entries@);
            lemma_entries_valid(self.entries@);
        }
        let found = find_owner(&self.entries, &caller);
        match found {
            Some(i) => {
                let mut entries: Vec<OwnerFiles> = Vec::new();
                std::mem::swap(&mut self.entries, &mut entries);
                let ghost before = entries@;
                let outcome = upload_to(
                    &mut entries[i].files,
                    caller,
                    timestamp,
                    file_hash,
                    file_size,
                    file_name,
                    file_type,
                    file_cid,
                );
                proof {
                    lemma_entry_replaced(before, entries@, i as int);
                    lemma_entry_sound(before, i as int);
                    lemma_sound_after_replacing(before, entries@, i as int);
                    lemma_entries_valid(entries@);
                    if outcome is Err {
                        assert(entries@[i as int].files@ == before[i as int].files@);
                        assert(entries_map(entries@) =~= entries_map(before));
                    }
                }
                self.entries = entries;
                outcome
            },
            None => {
                let mut files: Vec<FileMetadata> = Vec::new();
                let outcome = upload_to(
                    &mut files,
                    caller,
                    timestamp,
                    file_hash,
                    file_size,
                    file_name,
                    file_type,
                    file_cid,
                );
                match outcome {
                    Err(reason) => Err(reason),
                    Ok(()) => {
                        let mut entries: Vec<OwnerFiles> = Vec::new();
                        std::mem::swap(&mut self.entries, &mut entries);
                        let ghost before = entries@;
                        let entry = OwnerFiles { owner: caller, files };
                        proof {
                            assert(records_view(Seq::<FileMetadata>::empty()) =~= Seq::<
                                FileRecord,
                            >::empty());
                            lemma_entry_added(before, entry);
                            lemma_sound_after_adding(before, entry);
                        }
                        entries.push(entry);
                        proof {
                            lemma_entries_valid(entries@);
                        }
                        self.entries = entries;
                        Ok(())
                    },
                }
            },
        }
    }

    /// Removes every file of `caller` that is found under `file_cid`.
    ///
    /// A caller without files is refused. Where the caller has files but
    /// none under `file_cid`, the call succeeds and nothing changes.
    pub fn remove_file(&mut self, caller: Address, file_cid: Vec<u8>) -> (outcome: Result<
        (),
        Error,
    >)
        ensures
            match model::remove_file(old(self)@, caller@, file_cid@) {
                Ok(after) => outcome is Ok && final(self)@ == after,
                Err(reason) => outcome == Err::<(), Error>(reason) && final(self)@ == old(self)@,
            },
            final(self)@ == step(
                old(self)@,
                Call::RemoveFile { caller: caller@, file_cid: file_cid@ },
            ),
            outcome is Err <==> files_of(old(self)@, caller@).len() == 0,
            (files_of(old(self)@, caller@).len() > 0 && forall|k: int|
                0 <= k < files_of(old(self)@, caller@).len() ==> files_of(
                    old(self)@,
                    caller@,
                )[k].file_cid != file_cid@) ==> outcome is Ok && final(self)@ == old(self)@,
            forall|who: Seq<u8>|
                who != caller@ ==> files_of(final(self)@, who) == files_of(old(self)@, who),
            valid_registry(final(self)@),
    {
        proof {
            use_type_invariant(&*self);
            lemma_entries_map(self.entries@);
            lemma_entries_valid(self.entries@);
        }
        let found = find_owner(&self.entries, &caller);
        match found {
            None => Err(Error::NoFiles),
            Some(i) => {
                let mut entries: Vec<OwnerFiles> = Vec::new();
                std::mem::swap(&mut self.entries, &mut entries);
                let ghost before = entries@;
                let outcome = remove_file_from(&mut entries[i].files, &file_cid);
                proof {
                    let old_records = records_view(before[i as int].files@);
                    lemma_entry_replaced(before, entries@, i as int);
                    lemma_entry_sound(before, i as int);
                    crate::laws::lemma_remove_file_keeps_files_sound(
                        old_records,
                        caller@,
                        file_cid@,
                    );
                    crate::laws::lemma_without_cid(old_records, file_cid@);
                    lemma_sound_after_replacing(before, entries@, i as int);
                    lemma_entries_valid(entries@);
                    if outcome is Err {
                        assert(entries@[i as int].files@ == before[i as int].files@);
                        assert(entries_map(entries@) =~= entries_map(before));
                    }
                }
                self.entries = entries;
                outcome
            },
        }
    }

    /// Adds `tag` to the first file of `caller` that is found under `file_cid`.
    ///
    /// A caller without files is refused, and so is a content identifier
    /// under which the caller has no file, and a tag that the file
    /// already carries. A refused call changes nothing.
    pub fn add_tag(&mut self, caller: Address, file_cid: Vec<u8>, tag: Vec<u8>) -> (outcome: Result<
        (),
        Error,
    >)
        ensures
            match model::add_tag(old(self)@, caller@, file_cid@, tag@) {
                Ok(after) => outcome is Ok && final(self)@ == after,
                Err(reason) => outcome == Err::<(), Error>(reason) && final(self)@ == old(self)@,
            },
            outcome == Err::<(), Error>(Error::NoFiles) <==> files_of(old(self)@, caller@).len()
                == 0,
            outcome == Err::<(), Error>(Error::UnknownFile) <==> files_of(old(self)@, caller@).len()
                > 0 && first_with_cid(files_of(old(self)@, caller@), file_cid@) is None,
            final(self)@ == step(
                old(self)@,
                Call::AddTag { caller: caller@, file_cid: file_cid@, tag: tag@ },
            ),
            outcome == Err::<(), Error>(Error::DuplicateTag) <==> first_with_cid(
                files_of(old(self)@, caller@),
                file_cid@,
            ) is Some && files_of(old(self)@, caller@)[first_with_cid(
                files_of(old(self)@, caller@),
                file_cid@,
            )->Some_0].has_tag(tag@),
            forall|who: Seq<u8>|
                who != caller@ ==> files_of(final(self)@, who) == files_of(old(self)@, who),
            valid_registry(final(self)@),
    {
        proof {
            use_type_invariant(&*self);
            lemma_entries_map(self.entries@);
            lemma_entries_valid(self.entries@);
        }
        proof {
            lemma_first_with_cid(files_of(self@, caller@), file_cid@);
        }
        let found = find_owner(&self.entries, &caller);
        match found {
            None => Err(Error::NoFiles),
            Some(i) => {
                let mut entries: Vec<OwnerFiles> = Vec::new();
                std::mem::swap(&mut self.entries, &mut entries);
                let ghost before = entries@;
                let outcome = add_tag_to(&mut entries[i].files, &file_cid, tag);
                proof {
                    let old_records = records_view(before[i as int].files@);
                    lemma_entry_replaced(before, entries@, i as int);
                    lemma_entry_sound(before, i as int);
                    crate::laws::lemma_add_tag_keeps_files_sound(
                        old_records,
                        caller@,
                        file_cid@,
                        tag@,
                    );
                    lemma_sound_after_replacing(before, entries@, i as int);
                    lemma_entries_valid(entries@);
                    if outcome is Err {
                        assert(entries@[i as int].files@ == before[i as int].files@);
                        assert(entries_map(entries@) =~= entries_map(before));
                    }
                }
                self.entries = entries;
                outcome
            },
        }
    }

    /// Removes `tag` from the first file of `caller` that is found under `file_cid`.
    ///
    /// A caller without files is refused, and so is a content identifier
    /// under which the caller has no file, and a tag that the file does
    /// not carry. A refused call changes nothing.
    pub fn remove_tag(&mut self, caller: Address, file_cid: Vec<u8>, tag: Vec<u8>) -> (outcome:
        Result<(), Error>)
        ensures
            match model::remove_tag(old(self)@, caller@, file_cid@, tag@) {
                Ok(after) => outcome is Ok && final(self)@ == after,
                Err(reason) => outcome == Err::<(), Error>(reason) && final(self)@ == old(self)@,
            },
            outcome == Err::<(), Error>(Error::NoFiles) <==> files_of(old(self)@, caller@).len()
                == 0,
            outcome == Err::<(), Error>(Error::UnknownFile) <==> files_of(old(self)@, caller@).len()
                > 0 && first_with_cid(files_of(old(self)@, caller@), file_cid@) is None,
            final(self)@ == step(
                old(self)@,
                Call::RemoveTag { caller: caller@, file_cid: file_cid@, tag: tag@ },
            ),
            outcome == Err::<(), Error>(Error::TagNotPresent) <==> first_with_cid(
                files_of(old(self)@, caller@),
                file_cid@,
            ) is Some && !files_of(old(self)@, caller@)[first_with_cid(
                files_of(old(self)@, caller@),
                file_cid@,
            )->Some_0].has_tag(tag@),
            forall|who: Seq<u8>|
                who != caller@ ==> files_of(final(self)@, who) == files_of(old(self)@, who),
            valid_registry(final(self)@),
    {
        proof {
            use_type_invariant(&*self);
            lemma_entries_map(self.entries@);
            lemma_entries_valid(self.entries@);
        }
        proof {
            lemma_first_with_cid(files_of(self@, caller@), file_cid@);
        }
        let found = find_owner(&self.entries, &caller);
        match found {
            None => Err(Error::NoFiles),
            Some(i) => {
                let mut entries: Vec<OwnerFiles> = Vec::new();
                std::mem::swap(&mut self.entries, &mut entries);
                let ghost before = entries@;
                let outcome = remove_tag_of(&mut entries[i].files, &file_cid, &tag);
                proof {
                    let old_records = records_view(before[i as int].files@);
                    lemma_entry_replaced(before, entries@, i as int);
                    lemma_entry_sound(before, i as int);
                    crate::laws::lemma_remove_tag_keeps_files_sound(
                        old_records,
                        caller@,
                        file_cid@,
                        tag@,
                    );
                    lemma_sound_after_replacing(before, entries@, i as int);
                    lemma_entries_valid(entries@);
                    if outcome is Err {
                        assert(entries@[i as int].files@ == before[i as int].files@);
                        assert(entries_map(entries@) =~= entries_map(before));
                    }
                }
                self.entries = entries;
                outcome
            },
        }
    }

    /// The whole registry: every owner that has files, each once, with
    /// that owner's files, oldest first.
    pub fn files(&self) -> (listing: Vec<(Address, Vec<FileMetadata>)>)
        ensures
            lists(listing@, self@),
            valid_registry(self@),
    {
        proof {
            use_type_invariant(self);
            lemma_entries_map(self.entries@);
            lemma_entries_valid(self.entries@);
        }
        let mut listing: Vec<(Address, Vec<FileMetadata>)> = Vec::new();
        let ghost mut origin: Seq<int> = Seq::empty();
        let mut n: usize = 0;
        while n < self.entries.len()
            invariant
                n <= self.entries.len(),
                distinct_owners(self.entries@),
                origin.len() == listing.len(),
                forall|a: int, b: int|
                    0 <= a < b < listing.len() ==> #[trigger] origin[a] < #[trigger] origin[b],
                forall|k: int|
                    0 <= k < listing.len() ==> {
                        &&& 0 <= #[trigger] origin[k] < n
                        &&& holds(self.entries@, listing@[k].0@, origin[k])
                        &&& records_view(listing@[k].1@) == records_view(
                            self.entries@[origin[k]].files@,
                        )
                    },
                forall|j: int|
                    0 <= j < n && self.entries@[j].files.len() > 0 ==> exists|k: int|
                        0 <= k < listing.len() && #[trigger] origin[k] == j,
            decreases self.entries.len() - n,
        {
            if self.entries[n].files.len() > 0 {
                let owner = self.entries[n].owner;
                let owned = clone_files(&self.entries[n].files);
                listing.push((owner, owned));
                proof {
                    let ghost before = origin;
                    origin = origin.push(n as int);
                    assert forall|j: int|
                        0 <= j < n + 1 && self.entries@[j].files.len() > 0 implies exists|k: int|
                        0 <= k < listing.len() && #[trigger] origin[k] == j by {
                        if j < n {
                            let k = choose|k: int| 0 <= k < before.len() && #[trigger] before[k] == j;
                            assert(origin[k] == j);
                        } else {
                            assert(origin[listing.len() - 1] == j);
                        }
                    }
                }
            }
            n += 1;
        }
        proof {
            let entries = self.entries@;
            let m = self@;
            assert forall|i: int| 0 <= i < listing.len() implies m.contains_key(
                (#[trigger] listing@[i]).0@,
            ) && m[listing@[i].0@] == records_view(listing@[i].1@) by {
                let j = origin[i];
                assert(holds(entries, listing@[i].0@, j));
                assert(files_of(m, entries[j].owner@) == records_view(entries[j].files@));
            }
            assert forall|a: int, b: int| 0 <= a < b < listing.len() implies (#[trigger] listing@[a]).0@
                != (#[trigger] listing@[b]).0@ by {
                let ja = origin[a];
                let jb = origin[b];
                assert(holds(entries, listing@[a].0@, ja));
                assert(holds(entries, listing@[b].0@, jb));
                if listing@[a].0@ == listing@[b].0@ {
                    if ja < jb {
                        assert(entries[ja].owner@ != entries[jb].owner@);
                    } else if jb < ja {
                        assert(entries[jb].owner@ != entries[ja].owner@);
                    }
                }
            }
            assert forall|who: Seq<u8>| m.contains_key(who) implies exists|i: int|
                0 <= i < listing.len() && (#[trigger] listing@[i]).0@ == who by {
                let j = choose|j: int| holds(entries, who, j);
                assert(holds(entries, who, j));
                let k = choose|k: int| 0 <= k < listing.len() && #[trigger] origin[k] == j;
                assert(holds(entries, listing@[k].0@, origin[k]));
                assert(listing@[k].0@ == who);
            }
        }
        listing
    }

    /// The files of `user_address`, oldest first; none if that identity
    /// owns no files. Any identity may be asked about.
    pub fn user_files(&self, user_address: &Address) -> (owned: Vec<FileMetadata>)
        ensures
            records_view(owned@) == files_of(self@, user_address@),
            valid_registry(self@),
    {
        proof {
            use_type_invariant(self);
            lemma_entries_map(self.entries@);
            lemma_entries_valid(self.entries@);
        }
        match find_owner(&self.entries, user_address) {
            Some(i) => clone_files(&self.entries[i].files),
            None => {
                let owned: Vec<FileMetadata> = Vec::new();
                assert(records_view(owned@) =~= Seq::<FileRecord>::empty());
                owned
            },
        }
    }

    /// The caller's own files, oldest first.
    pub fn get_uploaded_files(&self, caller: &Address) -> (owned: Vec<FileMetadata>)
        ensures
            records_view(owned@) == files_of(self@, caller@),
            valid_registry(self@),
    {
        self.user_files(caller)
    }
}

} // verus!
