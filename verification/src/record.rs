//! One uploaded file's descriptor, its mathematical model, and the checks
//! made on an upload before anything is stored.

use vstd::prelude::*;
use crate::bytes::{bytes_eq, clone_bytes, Address};
use crate::error::Error;

verus! {

/// The mathematical model of one file descriptor.
pub struct FileRecord {
    /// Identifies the file's content.
    pub file_hash: Seq<u8>,
    /// The file's size.
    pub file_size: u64,
    /// The file's name.
    pub file_name: Seq<u8>,
    /// The file's type.
    pub file_type: Seq<u8>,
    /// The tags on the file, in the order in which they were added.
    pub file_tags: Seq<Seq<u8>>,
    /// The key of the descriptor within its owner's files.
    pub file_cid: Seq<u8>,
    /// The clock value at which the file was uploaded.
    pub timestamp: u64,
    /// The identity that uploaded the file.
    pub uploader: Seq<u8>,
}

impl FileRecord {
    /// The descriptor that an accepted upload creates: the given fields and no tags.
    pub open spec fn fresh(
        file_hash: Seq<u8>,
        file_size: u64,
        file_name: Seq<u8>,
        file_type: Seq<u8>,
        file_cid: Seq<u8>,
        timestamp: u64,
        uploader: Seq<u8>,
    ) -> FileRecord {
        FileRecord {
            file_hash,
            file_size,
            file_name,
            file_type,
            file_tags: Seq::empty(),
            file_cid,
            timestamp,
            uploader,
        }
    }

    /// Whether the descriptor carries `tag`.
    pub open spec fn has_tag(self, tag: Seq<u8>) -> bool {
        self.file_tags.contains(tag)
    }

    /// The descriptor with `tag` appended to its tags.
    pub open spec fn with_tag(self, tag: Seq<u8>) -> FileRecord {
        FileRecord { file_tags: self.file_tags.push(tag), ..self }
    }

    /// The descriptor with every occurrence of `tag` taken out of its tags.
    pub open spec fn without_tag(self, tag: Seq<u8>) -> FileRecord {
        FileRecord { file_tags: tags_without(self.file_tags, tag), ..self }
    }

    /// What holds of every stored descriptor: the required fields are
    /// filled in and no tag occurs twice.
    pub open spec fn well_formed(self) -> bool {
        &&& self.file_hash.len() > 0
        &&& self.file_size > 0
        &&& self.file_name.len() > 0
        &&& self.file_type.len() > 0
        &&& self.file_tags.no_duplicates()
    }
}

/// One uploaded file's descriptor.
#[derive(Debug)]
pub struct FileMetadata {
    file_hash: Vec<u8>,
    file_size: u64,
    file_name: Vec<u8>,
    file_type: Vec<u8>,
    file_tags: Vec<Vec<u8>>,
    file_cid: Vec<u8>,
    timestamp: u64,
    uploader: Address,
}

impl View for FileMetadata {
    type V = FileRecord;

    closed spec fn view(&self) -> FileRecord {
        FileRecord {
            file_hash: self.file_hash@,
            file_size: self.file_size,
            file_name: self.file_name@,
            file_type: self.file_type@,
            file_tags: tags_view(self.file_tags@),
            file_cid: self.file_cid@,
            timestamp: self.timestamp,
            uploader: self.uploader@,
        }
    }
}

impl Clone for FileMetadata {
    fn clone(&self) -> (copy: Self)
        ensures
            copy@ == self@,
    {
        FileMetadata {
            file_hash: clone_bytes(&self.file_hash),
            file_size: self.file_size,
            file_name: clone_bytes(&self.file_name),
            file_type: clone_bytes(&self.file_type),
            file_tags: clone_tags(&self.file_tags),
            file_cid: clone_bytes(&self.file_cid),
            timestamp: self.timestamp,
            uploader: self.uploader,
        }
    }
}

impl FileMetadata {
    /// Puts a descriptor together from its fields, as they are given.
    pub fn new(
        file_hash: Vec<u8>,
        file_size: u64,
        file_name: Vec<u8>,
        file_type: Vec<u8>,
        file_tags: Vec<Vec<u8>>,
        file_cid: Vec<u8>,
        timestamp: u64,
        uploader: Address,
    ) -> (record: Self)
        ensures
            record@ == (FileRecord {
                file_hash: file_hash@,
                file_size,
                file_name: file_name@,
                file_type: file_type@,
                file_tags: tags_view(file_tags@),
                file_cid: file_cid@,
                timestamp,
                uploader: uploader@,
            }),
    {
        FileMetadata {
            file_hash,
            file_size,
            file_name,
            file_type,
            file_tags,
            file_cid,
            timestamp,
            uploader,
        }
    }

    /// The hash that identifies the file's content.
    pub fn file_hash(&self) -> (bytes: &Vec<u8>)
        ensures
            bytes@ == self@.file_hash,
    {
        &self.file_hash
    }

    /// The file's size.
    pub fn file_size(&self) -> (size: u64)
        ensures
            size == self@.file_size,
    {
        self.file_size
    }

    /// The file's name.
    pub fn file_name(&self) -> (bytes: &Vec<u8>)
        ensures
            bytes@ == self@.file_name,
    {
        &self.file_name
    }

    /// The file's type.
    pub fn file_type(&self) -> (bytes: &Vec<u8>)
        ensures
            bytes@ == self@.file_type,
    {
        &self.file_type
    }

    /// The tags on the file, oldest first.
    pub fn file_tags(&self) -> (tags: &Vec<Vec<u8>>)
        ensures
            tags_view(tags@) == self@.file_tags,
    {
        &self.file_tags
    }

    /// The content identifier under which the file is found.
    pub fn file_cid(&self) -> (bytes: &Vec<u8>)
        ensures
            bytes@ == self@.file_cid,
    {
        &self.file_cid
    }

    /// The clock value at which the file was uploaded.
    pub fn timestamp(&self) -> (at: u64)
        ensures
            at == self@.timestamp,
    {
        self.timestamp
    }

    /// The identity that uploaded the file.
    pub fn uploader(&self) -> (who: Address)
        ensures
            who@ == self@.uploader,
    {
        self.uploader
    }

    /// Tells whether the file is found under `file_cid`.
    pub fn has_cid(&self, file_cid: &Vec<u8>) -> (same: bool)
        ensures
            same == (self@.file_cid == file_cid@),
    {
        bytes_eq(&self.file_cid, file_cid)
    }

    /// Tells whether the file carries `tag`.
    pub fn has_tag(&self, tag: &Vec<u8>) -> (found: bool)
        ensures
            found == self@.has_tag(tag@),
    {
        tags_contain(&self.file_tags, tag)
    }

    /// Appends `tag` to the file's tags.
    pub fn push_tag(&mut self, tag: Vec<u8>)
        ensures
            final(self)@ == old(self)@.with_tag(tag@),
    {
        self.file_tags.push(tag);
        assert(tags_view(self.file_tags@) =~= tags_view(old(self).file_tags@).push(tag@));
    }

    /// Takes every occurrence of `tag` out of the file's tags.
    pub fn drop_tag(&mut self, tag: &Vec<u8>)
        ensures
            final(self)@ == old(self)@.without_tag(tag@),
    {
        remove_tag_from(&mut self.file_tags, tag);
    }
}

/// The tags that differ from `tag`, in their order.
pub open spec fn tags_without(tags: Seq<Seq<u8>>, tag: Seq<u8>) -> Seq<Seq<u8>> {
    tags.filter(|t: Seq<u8>| t != tag)
}

/// The model of a list of tags.
pub open spec fn tags_view(tags: Seq<Vec<u8>>) -> Seq<Seq<u8>> {
    Seq::new(tags.len(), |i: int| tags[i]@)
}

/// The reason for which an upload with these fields is rejected, if any.
/// The checks are made in the order hash, size, name, type, and the first
/// that fails gives the reason.
pub open spec fn upload_rejection(
    file_hash: Seq<u8>,
    file_size: u64,
    file_name: Seq<u8>,
    file_type: Seq<u8>,
) -> Option<Error> {
    if file_hash.len() == 0 {
        Some(Error::EmptyFileHash)
    } else if file_size == 0 {
        Some(Error::ZeroFileSize)
    } else if file_name.len() == 0 {
        Some(Error::EmptyFileName)
    } else if file_type.len() == 0 {
        Some(Error::EmptyFileType)
    } else {
        None
    }
}

/// Checks the fields of an upload before anything is stored.
pub fn check_upload(
    file_hash: &Vec<u8>,
    file_size: u64,
    file_name: &Vec<u8>,
    file_type: &Vec<u8>,
) -> (outcome: Result<(), Error>)
    ensures
        outcome == match upload_rejection(file_hash@, file_size, file_name@, file_type@) {
            Some(reason) => Err::<(), Error>(reason),
            None => Ok::<(), Error>(()),
        },
        outcome is Err <==> (file_hash@.len() == 0 || file_size == 0 || file_name@.len() == 0
            || file_type@.len() == 0),
{
    if file_hash.len() == 0 {
        return Err(Error::EmptyFileHash);
    }
    if file_size == 0 {
        return Err(Error::ZeroFileSize);
    }
    if file_name.len() == 0 {
        return Err(Error::EmptyFileName);
    }
    if file_type.len() == 0 {
        return Err(Error::EmptyFileType);
    }
    Ok(())
}

/// Copies a list of tags.
pub fn clone_tags(tags: &Vec<Vec<u8>>) -> (copy: Vec<Vec<u8>>)
    ensures
        tags_view(copy@) == tags_view(tags@),
{
    let mut copy: Vec<Vec<u8>> = Vec::new();
    let mut i: usize = 0;
    while i < tags.len()
        invariant
            i <= tags.len(),
            copy.len() == i,
            forall|k: int| 0 <= k < i ==> copy@[k]@ == tags@[k]@,
        decreases tags.len() - i,
    {
        copy.push(clone_bytes(&tags[i]));
        i += 1;
    }
    assert(tags_view(copy@) =~= tags_view(tags@));
    copy
}

/// Tells whether `tag` is among `tags`.
pub fn tags_contain(tags: &Vec<Vec<u8>>, tag: &Vec<u8>) -> (found: bool)
    ensures
        found == tags_view(tags@).contains(tag@),
{
    let mut i: usize = 0;
    while i < tags.len()
        invariant
            i <= tags.len(),
            forall|k: int| 0 <= k < i ==> tags_view(tags@)[k] != tag@,
        decreases tags.len() - i,
    {
        if bytes_eq(&tags[i], tag) {
            assert(tags_view(tags@)[i as int] == tag@);
            return true;
        }
        i += 1;
    }
    false
}

/// Takes every occurrence of `tag` out of `tags`, keeping the order of the rest.
pub fn remove_tag_from(tags: &mut Vec<Vec<u8>>, tag: &Vec<u8>)
    ensures
        tags_view(final(tags)@) == tags_without(tags_view(old(tags)@), tag@),
{
    let ghost before = tags_view(tags@);
    let ghost mut seen: int = 0;
    let mut i: usize = 0;
    proof {
        assert(before.take(0) =~= Seq::<Seq<u8>>::empty());
        assert(tags_view(tags@).take(0) =~= Seq::<Seq<u8>>::empty());
        assert(tags_view(tags@).skip(0) =~= before.skip(0));
    }
    while i < tags.len()
        invariant
            0 <= i <= tags.len(),
            i <= seen <= before.len(),
            tags.len() - i == before.len() - seen,
            tags_view(tags@).take(i as int) == tags_without(before.take(seen), tag@),
            tags_view(tags@).skip(i as int) == before.skip(seen),
        decreases tags.len() - i,
    {
        let ghost current = tags_view(tags@);
        proof {
            assert(current[i as int] == current.skip(i as int)[0]);
            assert(before[seen] == before.skip(seen)[0]);
            assert(before.take(seen + 1) =~= before.take(seen).push(before[seen]));
            Seq::lemma_filter_push(before.take(seen), before[seen], |t: Seq<u8>| t != tag@);
        }
        if bytes_eq(&tags[i], tag) {
            tags.remove(i);
            proof {
                assert(tags_view(tags@).take(i as int) =~= current.take(i as int));
                assert(tags_view(tags@).skip(i as int) =~= current.skip(i as int).skip(1));
                assert(before.skip(seen).skip(1) =~= before.skip(seen + 1));
                seen = seen + 1;
            }
        } else {
            proof {
                assert(current.take(i as int + 1) =~= current.take(i as int).push(current[i as int]));
                assert(current.skip(i as int).skip(1) =~= current.skip(i as int + 1));
                assert(before.skip(seen).skip(1) =~= before.skip(seen + 1));
                seen = seen + 1;
            }
            i += 1;
        }
    }
    proof {
        assert(tags_view(tags@).take(i as int) =~= tags_view(tags@));
        assert(before.take(seen) =~= before);
    }
}

} // verus!
