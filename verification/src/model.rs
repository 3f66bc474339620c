//! The registry as mathematics: a map from identities to their files, and
//! what each operation makes of it.

use vstd::prelude::*;
use crate::error::Error;
use crate::files;
use crate::record::FileRecord;

verus! {

/// The model of the registry: each owner's files, oldest first. An
/// identity outside the domain owns no files.
pub type Registry = Map<Seq<u8>, Seq<FileRecord>>;

/// The files of `who`: none for an identity that the registry does not hold.
pub open spec fn files_of(registry: Registry, who: Seq<u8>) -> Seq<FileRecord> {
    if registry.contains_key(who) {
        registry[who]
    } else {
        Seq::empty()
    }
}

/// The registry in which `who` owns `records` and every other identity
/// owns what it did. An owner left without files leaves the domain.
pub open spec fn with_files(registry: Registry, who: Seq<u8>, records: Seq<FileRecord>) -> Registry {
    if records.len() == 0 {
        registry.remove(who)
    } else {
        registry.insert(who, records)
    }
}

/// Whether each of `records` is well formed and names `owner` as its uploader.
pub open spec fn all_sound(records: Seq<FileRecord>, owner: Seq<u8>) -> bool {
    forall|k: int|
        0 <= k < records.len() ==> (#[trigger] records[k]).well_formed() && records[k].uploader
            == owner
}

/// What holds of the files that the registry keeps for `owner`: there is
/// at least one, each is well formed, and each names `owner` as its uploader.
pub open spec fn valid_files(records: Seq<FileRecord>, owner: Seq<u8>) -> bool {
    records.len() > 0 && all_sound(records, owner)
}

/// What holds of every registry that the operations below can reach.
pub open spec fn valid_registry(registry: Registry) -> bool {
    forall|who: Seq<u8>| #[trigger] registry.contains_key(who) ==> valid_files(registry[who], who)
}

/// What an upload by `caller` at `timestamp` makes of the registry.
pub open spec fn upload_file(
    registry: Registry,
    caller: Seq<u8>,
    timestamp: u64,
    file_hash: Seq<u8>,
    file_size: u64,
    file_name: Seq<u8>,
    file_type: Seq<u8>,
    file_cid: Seq<u8>,
) -> Result<Registry, Error> {
    match files::upload_outcome(
        files_of(registry, caller),
        caller,
        timestamp,
        file_hash,
        file_size,
        file_name,
        file_type,
        file_cid,
    ) {
        Ok(after) => Ok(with_files(registry, caller, after)),
        Err(reason) => Err(reason),
    }
}

/// What `caller` removing the files under `file_cid` makes of the registry.
pub open spec fn remove_file(registry: Registry, caller: Seq<u8>, file_cid: Seq<u8>) -> Result<
    Registry,
    Error,
> {
    match files::remove_file_outcome(files_of(registry, caller), file_cid) {
        Ok(after) => Ok(with_files(registry, caller, after)),
        Err(reason) => Err(reason),
    }
}

/// What `caller` adding `tag` to the file under `file_cid` makes of the registry.
pub open spec fn add_tag(registry: Registry, caller: Seq<u8>, file_cid: Seq<u8>, tag: Seq<u8>) -> Result<
    Registry,
    Error,
> {
    match files::add_tag_outcome(files_of(registry, caller), file_cid, tag) {
        Ok(after) => Ok(with_files(registry, caller, after)),
        Err(reason) => Err(reason),
    }
}

/// What `caller` removing `tag` from the file under `file_cid` makes of the registry.
pub open spec fn remove_tag(
    registry: Registry,
    caller: Seq<u8>,
    file_cid: Seq<u8>,
    tag: Seq<u8>,
) -> Result<Registry, Error> {
    match files::remove_tag_outcome(files_of(registry, caller), file_cid, tag) {
        Ok(after) => Ok(with_files(registry, caller, after)),
        Err(reason) => Err(reason),
    }
}

/// One call on the registry, with the identity that makes it and, for an
/// upload, the clock value at which it is made.
pub enum Call {
    /// An upload of one file.
    UploadFile {
        caller: Seq<u8>,
        timestamp: u64,
        file_hash: Seq<u8>,
        file_size: u64,
        file_name: Seq<u8>,
        file_type: Seq<u8>,
        file_cid: Seq<u8>,
    },
    /// The removal of the files under a content identifier.
    RemoveFile { caller: Seq<u8>, file_cid: Seq<u8> },
    /// The addition of a tag to a file.
    AddTag { caller: Seq<u8>, file_cid: Seq<u8>, tag: Seq<u8> },
    /// The removal of a tag from a file.
    RemoveTag { caller: Seq<u8>, file_cid: Seq<u8>, tag: Seq<u8> },
}

impl Call {
    /// The identity that makes the call.
    pub open spec fn caller(self) -> Seq<u8> {
        match self {
            Call::UploadFile { caller, .. } => caller,
            Call::RemoveFile { caller, .. } => caller,
            Call::AddTag { caller, .. } => caller,
            Call::RemoveTag { caller, .. } => caller,
        }
    }

    /// What the call makes of the registry, or the reason for which it is rejected.
    pub open spec fn outcome(self, registry: Registry) -> Result<Registry, Error> {
        match self {
            Call::UploadFile {
                caller,
                timestamp,
                file_hash,
                file_size,
                file_name,
                file_type,
                file_cid,
            } => upload_file(
                registry,
                caller,
                timestamp,
                file_hash,
                file_size,
                file_name,
                file_type,
                file_cid,
            ),
            Call::RemoveFile { caller, file_cid } => remove_file(registry, caller, file_cid),
            Call::AddTag { caller, file_cid, tag } => add_tag(registry, caller, file_cid, tag),
            Call::RemoveTag { caller, file_cid, tag } => remove_tag(registry, caller, file_cid, tag),
        }
    }
}

/// The registry after a call: changed as the call says, or left as it was
/// where the call is rejected.
pub open spec fn step(registry: Registry, call: Call) -> Registry {
    match call.outcome(registry) {
        Ok(after) => after,
        Err(_) => registry,
    }
}

/// The registry that a history of calls leaves, starting from a registry
/// without files.
pub open spec fn run(calls: Seq<Call>) -> Registry
    decreases calls.len(),
{
    if calls.len() == 0 {
        Map::empty()
    } else {
        step(run(calls.drop_last()), calls.last())
    }
}

} // verus!
