//! The files of one owner: an ordered list of descriptors, and the
//! operations that change it: upload, removal, and the two on tags.

use vstd::prelude::*;
use crate::bytes::Address;
use crate::error::Error;
use crate::record::{check_upload, upload_rejection, FileMetadata, FileRecord};

verus! {

/// The model of a list of descriptors.
pub open spec fn records_view(files: Seq<FileMetadata>) -> Seq<FileRecord> {
    Seq::new(files.len(), |i: int| files[i]@)
}

/// Whether `i` is the place of the first descriptor found under `file_cid`.
pub open spec fn is_first_with_cid(records: Seq<FileRecord>, file_cid: Seq<u8>, i: int) -> bool {
    &&& 0 <= i < records.len()
    &&& records[i].file_cid == file_cid
    &&& forall|j: int| 0 <= j < i ==> records[j].file_cid != file_cid
}

/// The place of the first descriptor found under `file_cid`, if there is one.
pub open spec fn first_with_cid(records: Seq<FileRecord>, file_cid: Seq<u8>) -> Option<int> {
    if exists|i: int| is_first_with_cid(records, file_cid, i) {
        Some(choose|i: int| is_first_with_cid(records, file_cid, i))
    } else {
        None
    }
}

/// The descriptors that are not found under `file_cid`, in their order.
pub open spec fn records_without_cid(records: Seq<FileRecord>, file_cid: Seq<u8>) -> Seq<
    FileRecord,
> {
    records.filter(|r: FileRecord| r.file_cid != file_cid)
}

/// What an upload by `caller` at `timestamp` makes of that caller's files.
/// An upload with an empty hash, a size of zero, an empty name or an
/// empty type is refused; any other appends one descriptor without tags.
pub open spec fn upload_outcome(
    records: Seq<FileRecord>,
    caller: Seq<u8>,
    timestamp: u64,
    file_hash: Seq<u8>,
    file_size: u64,
    file_name: Seq<u8>,
    file_type: Seq<u8>,
    file_cid: Seq<u8>,
) -> Result<Seq<FileRecord>, Error> {
    match upload_rejection(file_hash, file_size, file_name, file_type) {
        Some(reason) => Err(reason),
        None => Ok(
            records.push(
                FileRecord::fresh(
                    file_hash,
                    file_size,
                    file_name,
                    file_type,
                    file_cid,
                    timestamp,
                    caller,
                ),
            ),
        ),
    }
}

/// What removing the files under `file_cid` makes of an owner's files.
/// An owner without files is refused; every file under `file_cid` goes,
/// and where there is none the files stay as they are.
pub open spec fn remove_file_outcome(records: Seq<FileRecord>, file_cid: Seq<u8>) -> Result<
    Seq<FileRecord>,
    Error,
> {
    if records.len() == 0 {
        Err(Error::NoFiles)
    } else {
        Ok(records_without_cid(records, file_cid))
    }
}

/// What adding `tag` to the first file under `file_cid` makes of an owner's files.
pub open spec fn add_tag_outcome(records: Seq<FileRecord>, file_cid: Seq<u8>, tag: Seq<u8>) -> Result<
    Seq<FileRecord>,
    Error,
> {
    if records.len() == 0 {
        Err(Error::NoFiles)
    } else {
        match first_with_cid(records, file_cid) {
            None => Err(Error::UnknownFile),
            Some(i) => if records[i].has_tag(tag) {
                Err(Error::DuplicateTag)
            } else {
                Ok(records.update(i, records[i].with_tag(tag)))
            },
        }
    }
}

/// What removing `tag` from the first file under `file_cid` makes of an owner's files.
pub open spec fn remove_tag_outcome(
    records: Seq<FileRecord>,
    file_cid: Seq<u8>,
    tag: Seq<u8>,
) -> Result<Seq<FileRecord>, Error> {
    if records.len() == 0 {
        Err(Error::NoFiles)
    } else {
        match first_with_cid(records, file_cid) {
            None => Err(Error::UnknownFile),
            Some(i) => if records[i].has_tag(tag) {
                Ok(records.update(i, records[i].without_tag(tag)))
            } else {
                Err(Error::TagNotPresent)
            },
        }
    }
}

/// The first file under a content identifier is the one before which no
/// file is found under it: there is at most one such place, and there is
/// none exactly when no file is found under the identifier.
pub proof fn lemma_first_with_cid(records: Seq<FileRecord>, file_cid: Seq<u8>)
    ensures
        match first_with_cid(records, file_cid) {
            Some(i) => is_first_with_cid(records, file_cid, i),
            None => forall|j: int| 0 <= j < records.len() ==> records[j].file_cid != file_cid,
        },
        forall|i: int| is_first_with_cid(records, file_cid, i) ==> first_with_cid(records, file_cid)
            == Some(i),
{
    assert forall|i: int| is_first_with_cid(records, file_cid, i) implies first_with_cid(
        records,
        file_cid,
    ) == Some(i) by {
        let c = choose|c: int| is_first_with_cid(records, file_cid, c);
        assert(is_first_with_cid(records, file_cid, c));
        if c < i {
            assert(records[c].file_cid != file_cid);
        }
        if i < c {
            assert(records[i].file_cid != file_cid);
        }
    }
    if first_with_cid(records, file_cid) is None {
        lemma_some_match_has_first(records, file_cid, records.len() as int);
    }
}

/// Among the first `n` descriptors, either none is found under `file_cid`
/// or one of them is the first that is.
proof fn lemma_some_match_has_first(records: Seq<FileRecord>, file_cid: Seq<u8>, n: int)
    requires
        0 <= n <= records.len(),
    ensures
        (forall|j: int| 0 <= j < n ==> records[j].file_cid != file_cid) || (exists|i: int|
            is_first_with_cid(records, file_cid, i)),
    decreases n,
{
    if n > 0 {
        lemma_some_match_has_first(records, file_cid, n - 1);
        if forall|j: int| 0 <= j < n - 1 ==> records[j].file_cid != file_cid {
            if records[n - 1].file_cid == file_cid {
                assert(is_first_with_cid(records, file_cid, n - 1));
            }
        }
    }
}

/// Looks for the first file found under `file_cid`.
pub fn find_file(files: &Vec<FileMetadata>, file_cid: &Vec<u8>) -> (found: Option<usize>)
    ensures
        match found {
            Some(i) => first_with_cid(records_view(files@), file_cid@) == Some(i as int),
            None => first_with_cid(records_view(files@), file_cid@) is None,
        },
{
    let mut i: usize = 0;
    while i < files.len()
        invariant
            i <= files.len(),
            forall|j: int| 0 <= j < i ==> records_view(files@)[j].file_cid != file_cid@,
        decreases files.len() - i,
    {
        if files[i].has_cid(file_cid) {
            proof {
                assert(is_first_with_cid(records_view(files@), file_cid@, i as int));
                lemma_first_with_cid(records_view(files@), file_cid@);
            }
            return Some(i);
        }
        i += 1;
    }
    proof {
        lemma_first_with_cid(records_view(files@), file_cid@);
        if first_with_cid(records_view(files@), file_cid@) is Some {
            let c = first_with_cid(records_view(files@), file_cid@).unwrap();
            assert(records_view(files@)[c].file_cid != file_cid@);
        }
    }
    None
}

/// Copies a list of descriptors.
pub fn clone_files(files: &Vec<FileMetadata>) -> (copy: Vec<FileMetadata>)
    ensures
        records_view(copy@) == records_view(files@),
{
    let mut copy: Vec<FileMetadata> = Vec::new();
    let mut i: usize = 0;
    while i < files.len()
        invariant
            i <= files.len(),
            copy.len() == i,
            forall|k: int| 0 <= k < i ==> copy@[k]@ == files@[k]@,
        decreases files.len() - i,
    {
        copy.push(files[i].clone());
        i += 1;
    }
    assert(records_view(copy@) =~= records_view(files@));
    copy
}

/// Appends the file that `caller` uploads at `timestamp` to that caller's files.
pub fn upload_to(
    files: &mut Vec<FileMetadata>,
    caller: Address,
    timestamp: u64,
    file_hash: Vec<u8>,
    file_size: u64,
    file_name: Vec<u8>,
    file_type: Vec<u8>,
    file_cid: Vec<u8>,
) -> (outcome: Result<(), Error>)
    ensures
        match upload_outcome(
            records_view(old(files)@),
            caller@,
            timestamp,
            file_hash@,
            file_size,
            file_name@,
            file_type@,
            file_cid@,
        ) {
            Ok(after) => outcome is Ok && records_view(final(files)@) == after,
            Err(reason) => outcome == Err::<(), Error>(reason) && final(files)@ == old(files)@,
        },
{
    match check_upload(&file_hash, file_size, &file_name, &file_type) {
        Err(reason) => Err(reason),
        Ok(()) => {
            let record = FileMetadata::new(
                file_hash,
                file_size,
                file_name,
                file_type,
                Vec::new(),
                file_cid,
                timestamp,
                caller,
            );
            assert(record@.file_tags =~= Seq::<Seq<u8>>::empty());
            files.push(record);
            assert(records_view(files@) =~= records_view(old(files)@).push(record@));
            Ok(())
        },
    }
}

/// Removes every file found under `file_cid` from an owner's files.
pub fn remove_file_from(files: &mut Vec<FileMetadata>, file_cid: &Vec<u8>) -> (outcome: Result<
    (),
    Error,
>)
    ensures
        match remove_file_outcome(records_view(old(files)@), file_cid@) {
            Ok(after) => outcome is Ok && records_view(final(files)@) == after,
            Err(reason) => outcome == Err::<(), Error>(reason) && final(files)@ == old(files)@,
        },
{
    if files.len() == 0 {
        return Err(Error::NoFiles);
    }
    let ghost before = records_view(files@);
    let ghost mut seen: int = 0;
    let mut i: usize = 0;
    proof {
        assert(before.take(0) =~= Seq::<FileRecord>::empty());
        assert(records_view(files@).take(0) =~= Seq::<FileRecord>::empty());
        assert(records_view(files@).skip(0) =~= before.skip(0));
    }
    while i < files.len()
        invariant
            0 <= i <= files.len(),
            i <= seen <= before.len(),
            files.len() - i == before.len() - seen,
            records_view(files@).take(i as int) == records_without_cid(before.take(seen), file_cid@),
            records_view(files@).skip(i as int) == before.skip(seen),
        decreases files.len() - i,
    {
        let ghost current = records_view(files@);
        proof {
            assert(current[i as int] == current.skip(i as int)[0]);
            assert(before[seen] == before.skip(seen)[0]);
            assert(before.take(seen + 1) =~= before.take(seen).push(before[seen]));
            Seq::lemma_filter_push(
                before.take(seen),
                before[seen],
                |r: FileRecord| r.file_cid != file_cid@,
            );
        }
        if files[i].has_cid(file_cid) {
            files.remove(i);
            proof {
                assert(records_view(files@).take(i as int) =~= current.take(i as int));
                assert(records_view(files@).skip(i as int) =~= current.skip(i as int).skip(1));
                assert(before.skip(seen).skip(1) =~= before.skip(seen + 1));
                seen = seen + 1;
            }
        } else {
            proof {
                assert(current.take(i as int + 1) =~= current.take(i as int).push(
                    current[i as int],
                ));
                assert(current.skip(i as int).skip(1) =~= current.skip(i as int + 1));
                assert(before.skip(seen).skip(1) =~= before.skip(seen + 1));
                seen = seen + 1;
            }
            i += 1;
        }
    }
    proof {
        assert(records_view(files@).take(i as int) =~= records_view(files@));
        assert(before.take(seen) =~= before);
    }
    Ok(())
}

/// Adds `tag` to the first file found under `file_cid`.
pub fn add_tag_to(files: &mut Vec<FileMetadata>, file_cid: &Vec<u8>, tag: Vec<u8>) -> (outcome:
    Result<(), Error>)
    ensures
        match add_tag_outcome(records_view(old(files)@), file_cid@, tag@) {
            Ok(after) => outcome is Ok && records_view(final(files)@) == after,
            Err(reason) => outcome == Err::<(), Error>(reason) && final(files)@ == old(files)@,
        },
{
    if files.len() == 0 {
        return Err(Error::NoFiles);
    }
    match find_file(files, file_cid) {
        None => Err(Error::UnknownFile),
        Some(i) => {
            if files[i].has_tag(&tag) {
                return Err(Error::DuplicateTag);
            }
            files[i].push_tag(tag);
            assert(records_view(files@) =~= records_view(old(files)@).update(
                i as int,
                records_view(old(files)@)[i as int].with_tag(tag@),
            ));
            Ok(())
        },
    }
}

/// Removes `tag` from the first file found under `file_cid`.
pub fn remove_tag_of(files: &mut Vec<FileMetadata>, file_cid: &Vec<u8>, tag: &Vec<u8>) -> (outcome:
    Result<(), Error>)
    ensures
        match remove_tag_outcome(records_view(old(files)@), file_cid@, tag@) {
            Ok(after) => outcome is Ok && records_view(final(files)@) == after,
            Err(reason) => outcome == Err::<(), Error>(reason) && final(files)@ == old(files)@,
        },
{
    if files.len() == 0 {
        return Err(Error::NoFiles);
    }
    match find_file(files, file_cid) {
        None => Err(Error::UnknownFile),
        Some(i) => {
            if !files[i].has_tag(tag) {
                return Err(Error::TagNotPresent);
            }
            files[i].drop_tag(tag);
            assert(records_view(files@) =~= records_view(old(files)@).update(
                i as int,
                records_view(old(files)@)[i as int].without_tag(tag@),
            ));
            Ok(())
        },
    }
}

} // verus!
