use dcsc::error::{Error, ErrorKind};
use dcsc::record::FileMetadata;
use dcsc::registry::Dcsc;

const ALICE: [u8; 32] = [1u8; 32];
const BOB: [u8; 32] = [2u8; 32];

fn b(text: &str) -> Vec<u8> {
    text.as_bytes().to_vec()
}

fn upload(registry: &mut Dcsc, who: [u8; 32], at: u64, cid: &str) -> Result<(), Error> {
    registry.upload_file(who, at, b("h1"), 12, b("n1"), b("t1"), b(cid))
}

fn cids(files: &[FileMetadata]) -> Vec<Vec<u8>> {
    files.iter().map(|f| f.file_cid().clone()).collect()
}

#[test]
fn scenario_upload_tag_remove() {
    let mut registry = Dcsc::new();
    assert_eq!(
        registry.upload_file(ALICE, 1_700_000_000, b("h1"), 12, b("n1"), b("t1"), b("QmX")),
        Ok(())
    );
    let owned = registry.get_uploaded_files(&ALICE);
    assert_eq!(owned.len(), 1);
    assert_eq!(owned[0].file_cid(), &b("QmX"));
    assert!(owned[0].file_tags().is_empty());

    assert_eq!(registry.add_tag(ALICE, b("QmX"), b("draft")), Ok(()));
    let owned = registry.get_uploaded_files(&ALICE);
    assert_eq!(owned.len(), 1);
    assert_eq!(owned[0].file_tags(), &vec![b("draft")]);

    assert_eq!(registry.remove_file(ALICE, b("QmX")), Ok(()));
    assert!(registry.get_uploaded_files(&ALICE).is_empty());
}

#[test]
fn new_registry_is_empty() {
    let registry = Dcsc::new();
    assert!(registry.files().is_empty());
    assert!(registry.user_files(&ALICE).is_empty());
    assert!(registry.get_uploaded_files(&BOB).is_empty());
}

#[test]
fn upload_rejects_empty_hash() {
    let mut registry = Dcsc::new();
    let outcome = registry.upload_file(ALICE, 5, b(""), 12, b("n1"), b("t1"), b("QmX"));
    assert_eq!(outcome, Err(Error::EmptyFileHash));
    assert_eq!(outcome.unwrap_err().kind(), ErrorKind::InvalidArgument);
    assert!(registry.get_uploaded_files(&ALICE).is_empty());
    assert!(registry.files().is_empty());
}

#[test]
fn upload_rejects_zero_size() {
    let mut registry = Dcsc::new();
    let outcome = registry.upload_file(ALICE, 5, b("h1"), 0, b("n1"), b("t1"), b("QmX"));
    assert_eq!(outcome, Err(Error::ZeroFileSize));
    assert_eq!(outcome.unwrap_err().kind(), ErrorKind::InvalidArgument);
    assert!(registry.get_uploaded_files(&ALICE).is_empty());
}

#[test]
fn upload_rejects_empty_name() {
    let mut registry = Dcsc::new();
    let outcome = registry.upload_file(ALICE, 5, b("h1"), 12, b(""), b("t1"), b("QmX"));
    assert_eq!(outcome, Err(Error::EmptyFileName));
    assert_eq!(outcome.unwrap_err().kind(), ErrorKind::InvalidArgument);
    assert!(registry.get_uploaded_files(&ALICE).is_empty());
}

#[test]
fn upload_rejects_empty_type() {
    let mut registry = Dcsc::new();
    let outcome = registry.upload_file(ALICE, 5, b("h1"), 12, b("n1"), b(""), b("QmX"));
    assert_eq!(outcome, Err(Error::EmptyFileType));
    assert_eq!(outcome.unwrap_err().kind(), ErrorKind::InvalidArgument);
    assert!(registry.get_uploaded_files(&ALICE).is_empty());
}

#[test]
fn upload_reports_first_failing_check() {
    let mut registry = Dcsc::new();
    assert_eq!(
        registry.upload_file(ALICE, 5, b(""), 0, b(""), b(""), b("")),
        Err(Error::EmptyFileHash)
    );
    assert_eq!(
        registry.upload_file(ALICE, 5, b("h"), 0, b(""), b(""), b("")),
        Err(Error::ZeroFileSize)
    );
    assert_eq!(
        registry.upload_file(ALICE, 5, b("h"), 1, b(""), b(""), b("")),
        Err(Error::EmptyFileName)
    );
    assert_eq!(
        registry.upload_file(ALICE, 5, b("h"), 1, b("n"), b(""), b("")),
        Err(Error::EmptyFileType)
    );
    assert!(registry.files().is_empty());
}

#[test]
fn upload_rejection_leaves_earlier_files() {
    let mut registry = Dcsc::new();
    assert_eq!(upload(&mut registry, ALICE, 1, "QmA"), Ok(()));
    assert_eq!(
        registry.upload_file(ALICE, 2, b("h"), 0, b("n"), b("t"), b("QmB")),
        Err(Error::ZeroFileSize)
    );
    assert_eq!(cids(&registry.get_uploaded_files(&ALICE)), vec![b("QmA")]);
}

#[test]
fn upload_accepts_empty_cid() {
    let mut registry = Dcsc::new();
    assert_eq!(registry.upload_file(ALICE, 9, b("h"), 1, b("n"), b("t"), b("")), Ok(()));
    let owned = registry.get_uploaded_files(&ALICE);
    assert_eq!(owned.len(), 1);
    assert!(owned[0].file_cid().is_empty());
}

#[test]
fn upload_round_trip_keeps_every_field() {
    let mut registry = Dcsc::new();
    assert_eq!(
        registry.upload_file(
            ALICE,
            1_234_567,
            b("hash-bytes"),
            u64::MAX,
            b("report.pdf"),
            b("application/pdf"),
            b("QmRoundTrip"),
        ),
        Ok(())
    );
    let owned = registry.get_uploaded_files(&ALICE);
    assert_eq!(owned.len(), 1);
    let record = &owned[0];
    assert_eq!(record.file_hash(), &b("hash-bytes"));
    assert_eq!(record.file_size(), u64::MAX);
    assert_eq!(record.file_name(), &b("report.pdf"));
    assert_eq!(record.file_type(), &b("application/pdf"));
    assert_eq!(record.file_cid(), &b("QmRoundTrip"));
    assert_eq!(record.timestamp(), 1_234_567);
    assert_eq!(record.uploader(), ALICE);
    assert_eq!(record.file_tags(), &Vec::<Vec<u8>>::new());
}

#[test]
fn upload_appends_in_order_and_allows_repeated_cid() {
    let mut registry = Dcsc::new();
    assert_eq!(upload(&mut registry, ALICE, 1, "QmA"), Ok(()));
    assert_eq!(upload(&mut registry, ALICE, 2, "QmB"), Ok(()));
    assert_eq!(upload(&mut registry, ALICE, 3, "QmA"), Ok(()));
    let owned = registry.get_uploaded_files(&ALICE);
    assert_eq!(cids(&owned), vec![b("QmA"), b("QmB"), b("QmA")]);
    assert_eq!(owned[0].timestamp(), 1);
    assert_eq!(owned[1].timestamp(), 2);
    assert_eq!(owned[2].timestamp(), 3);
}

#[test]
fn user_files_of_unknown_identity_is_empty() {
    let mut registry = Dcsc::new();
    assert_eq!(upload(&mut registry, ALICE, 1, "QmA"), Ok(()));
    assert!(registry.user_files(&BOB).is_empty());
    assert!(registry.user_files(&[0u8; 32]).is_empty());
    assert_eq!(registry.remove_file(BOB, b("QmA")), Err(Error::NoFiles));
    assert_eq!(registry.add_tag(BOB, b("QmA"), b("t")), Err(Error::NoFiles));
    assert_eq!(registry.remove_tag(BOB, b("QmA"), b("t")), Err(Error::NoFiles));
    assert!(registry.user_files(&BOB).is_empty());
}

#[test]
fn user_files_and_get_uploaded_files_agree() {
    let mut registry = Dcsc::new();
    assert_eq!(upload(&mut registry, ALICE, 1, "QmA"), Ok(()));
    assert_eq!(upload(&mut registry, BOB, 2, "QmB"), Ok(()));
    assert_eq!(cids(&registry.user_files(&ALICE)), cids(&registry.get_uploaded_files(&ALICE)));
    assert_eq!(cids(&registry.user_files(&BOB)), vec![b("QmB")]);
    assert_eq!(registry.user_files(&BOB)[0].uploader(), BOB);
}

#[test]
fn owners_do_not_touch_each_other() {
    let mut registry = Dcsc::new();
    assert_eq!(upload(&mut registry, ALICE, 1, "QmShared"), Ok(()));
    assert_eq!(upload(&mut registry, BOB, 2, "QmShared"), Ok(()));
    assert_eq!(registry.add_tag(BOB, b("QmShared"), b("mine")), Ok(()));
    assert!(registry.user_files(&ALICE)[0].file_tags().is_empty());
    assert_eq!(registry.remove_file(BOB, b("QmShared")), Ok(()));
    assert_eq!(cids(&registry.user_files(&ALICE)), vec![b("QmShared")]);
    assert!(registry.user_files(&BOB).is_empty());
}

#[test]
fn add_tag_twice_is_a_duplicate() {
    let mut registry = Dcsc::new();
    assert_eq!(upload(&mut registry, ALICE, 1, "QmX"), Ok(()));
    assert_eq!(registry.add_tag(ALICE, b("QmX"), b("draft")), Ok(()));
    let second = registry.add_tag(ALICE, b("QmX"), b("draft"));
    assert_eq!(second, Err(Error::DuplicateTag));
    assert_eq!(second.unwrap_err().kind(), ErrorKind::DuplicateTag);
    let owned = registry.get_uploaded_files(&ALICE);
    let tags = owned[0].file_tags();
    assert_eq!(tags.iter().filter(|t| **t == b("draft")).count(), 1);
    assert_eq!(tags, &vec![b("draft")]);
}

#[test]
fn add_tag_keeps_insertion_order() {
    let mut registry = Dcsc::new();
    assert_eq!(upload(&mut registry, ALICE, 1, "QmX"), Ok(()));
    assert_eq!(registry.add_tag(ALICE, b("QmX"), b("b")), Ok(()));
    assert_eq!(registry.add_tag(ALICE, b("QmX"), b("a")), Ok(()));
    assert_eq!(registry.add_tag(ALICE, b("QmX"), b("")), Ok(()));
    assert_eq!(
        registry.get_uploaded_files(&ALICE)[0].file_tags(),
        &vec![b("b"), b("a"), b("")]
    );
}

#[test]
fn add_tag_to_unknown_cid_is_not_found() {
    let mut registry = Dcsc::new();
    assert_eq!(upload(&mut registry, ALICE, 1, "QmX"), Ok(()));
    let outcome = registry.add_tag(ALICE, b("QmY"), b("draft"));
    assert_eq!(outcome, Err(Error::UnknownFile));
    assert_eq!(outcome.unwrap_err().kind(), ErrorKind::NotFound);
    assert!(registry.get_uploaded_files(&ALICE)[0].file_tags().is_empty());
}

#[test]
fn add_tag_without_files_is_not_found() {
    let mut registry = Dcsc::new();
    let outcome = registry.add_tag(ALICE, b("QmX"), b("draft"));
    assert_eq!(outcome, Err(Error::NoFiles));
    assert_eq!(outcome.unwrap_err().kind(), ErrorKind::NotFound);
}

#[test]
fn add_tag_changes_only_the_first_match() {
    let mut registry = Dcsc::new();
    assert_eq!(upload(&mut registry, ALICE, 1, "QmOther"), Ok(()));
    assert_eq!(upload(&mut registry, ALICE, 2, "QmX"), Ok(()));
    assert_eq!(upload(&mut registry, ALICE, 3, "QmX"), Ok(()));
    assert_eq!(registry.add_tag(ALICE, b("QmX"), b("draft")), Ok(()));
    let owned = registry.get_uploaded_files(&ALICE);
    assert!(owned[0].file_tags().is_empty());
    assert_eq!(owned[1].file_tags(), &vec![b("draft")]);
    assert!(owned[2].file_tags().is_empty());
    assert_eq!(registry.add_tag(ALICE, b("QmX"), b("draft")), Err(Error::DuplicateTag));
}

#[test]
fn remove_tag_requires_presence() {
    let mut registry = Dcsc::new();
    assert_eq!(upload(&mut registry, ALICE, 1, "QmX"), Ok(()));
    assert_eq!(registry.add_tag(ALICE, b("QmX"), b("keep")), Ok(()));
    let outcome = registry.remove_tag(ALICE, b("QmX"), b("absent"));
    assert_eq!(outcome, Err(Error::TagNotPresent));
    assert_eq!(outcome.unwrap_err().kind(), ErrorKind::TagNotPresent);
    assert_eq!(registry.get_uploaded_files(&ALICE)[0].file_tags(), &vec![b("keep")]);
}

#[test]
fn remove_tag_on_untagged_file_is_rejected() {
    let mut registry = Dcsc::new();
    assert_eq!(upload(&mut registry, ALICE, 1, "QmX"), Ok(()));
    assert_eq!(registry.remove_tag(ALICE, b("QmX"), b("draft")), Err(Error::TagNotPresent));
    assert!(registry.get_uploaded_files(&ALICE)[0].file_tags().is_empty());
}

#[test]
fn remove_tag_takes_the_tag_and_keeps_the_rest() {
    let mut registry = Dcsc::new();
    assert_eq!(upload(&mut registry, ALICE, 1, "QmX"), Ok(()));
    assert_eq!(registry.add_tag(ALICE, b("QmX"), b("a")), Ok(()));
    assert_eq!(registry.add_tag(ALICE, b("QmX"), b("b")), Ok(()));
    assert_eq!(registry.add_tag(ALICE, b("QmX"), b("c")), Ok(()));
    assert_eq!(registry.remove_tag(ALICE, b("QmX"), b("a")), Ok(()));
    assert_eq!(registry.get_uploaded_files(&ALICE)[0].file_tags(), &vec![b("b"), b("c")]);
    assert_eq!(registry.remove_tag(ALICE, b("QmX"), b("c")), Ok(()));
    assert_eq!(registry.get_uploaded_files(&ALICE)[0].file_tags(), &vec![b("b")]);
    assert_eq!(registry.remove_tag(ALICE, b("QmX"), b("c")), Err(Error::TagNotPresent));
    assert_eq!(registry.add_tag(ALICE, b("QmX"), b("c")), Ok(()));
    assert_eq!(registry.get_uploaded_files(&ALICE)[0].file_tags(), &vec![b("b"), b("c")]);
}

#[test]
fn remove_tag_of_unknown_cid_is_not_found() {
    let mut registry = Dcsc::new();
    assert_eq!(upload(&mut registry, ALICE, 1, "QmX"), Ok(()));
    let outcome = registry.remove_tag(ALICE, b("QmY"), b("draft"));
    assert_eq!(outcome, Err(Error::UnknownFile));
    assert_eq!(outcome.unwrap_err().kind(), ErrorKind::NotFound);
}

#[test]
fn remove_tag_without_files_is_not_found() {
    let mut registry = Dcsc::new();
    assert_eq!(registry.remove_tag(ALICE, b("QmX"), b("draft")), Err(Error::NoFiles));
}

#[test]
fn remove_unknown_file_changes_nothing() {
    let mut registry = Dcsc::new();
    assert_eq!(upload(&mut registry, ALICE, 1, "QmA"), Ok(()));
    assert_eq!(upload(&mut registry, ALICE, 2, "QmB"), Ok(()));
    assert_eq!(registry.add_tag(ALICE, b("QmB"), b("t")), Ok(()));
    assert_eq!(registry.remove_file(ALICE, b("QmMissing")), Ok(()));
    let owned = registry.get_uploaded_files(&ALICE);
    assert_eq!(cids(&owned), vec![b("QmA"), b("QmB")]);
    assert_eq!(owned[1].file_tags(), &vec![b("t")]);
}

#[test]
fn remove_file_without_files_is_not_found() {
    let mut registry = Dcsc::new();
    let outcome = registry.remove_file(ALICE, b("QmA"));
    assert_eq!(outcome, Err(Error::NoFiles));
    assert_eq!(outcome.unwrap_err().kind(), ErrorKind::NotFound);
}

#[test]
fn remove_file_takes_every_match() {
    let mut registry = Dcsc::new();
    assert_eq!(upload(&mut registry, ALICE, 1, "QmX"), Ok(()));
    assert_eq!(upload(&mut registry, ALICE, 2, "QmKeep"), Ok(()));
    assert_eq!(upload(&mut registry, ALICE, 3, "QmX"), Ok(()));
    assert_eq!(upload(&mut registry, ALICE, 4, "QmX"), Ok(()));
    assert_eq!(upload(&mut registry, ALICE, 5, "QmLast"), Ok(()));
    assert_eq!(registry.remove_file(ALICE, b("QmX")), Ok(()));
    let owned = registry.get_uploaded_files(&ALICE);
    assert_eq!(cids(&owned), vec![b("QmKeep"), b("QmLast")]);
    assert_eq!(owned[0].timestamp(), 2);
    assert_eq!(owned[1].timestamp(), 5);
}

#[test]
fn owner_left_without_files_is_as_if_never_seen() {
    let mut registry = Dcsc::new();
    assert_eq!(upload(&mut registry, ALICE, 1, "QmX"), Ok(()));
    assert_eq!(upload(&mut registry, BOB, 2, "QmB"), Ok(()));
    assert_eq!(registry.remove_file(ALICE, b("QmX")), Ok(()));
    assert!(registry.user_files(&ALICE).is_empty());
    assert_eq!(registry.remove_file(ALICE, b("QmX")), Err(Error::NoFiles));
    assert_eq!(registry.add_tag(ALICE, b("QmX"), b("t")), Err(Error::NoFiles));
    assert_eq!(registry.remove_tag(ALICE, b("QmX"), b("t")), Err(Error::NoFiles));
    let listing = registry.files();
    assert_eq!(listing.len(), 1);
    assert_eq!(listing[0].0, BOB);
    assert_eq!(upload(&mut registry, ALICE, 3, "QmNew"), Ok(()));
    assert_eq!(cids(&registry.user_files(&ALICE)), vec![b("QmNew")]);
    assert_eq!(registry.files().len(), 2);
}

#[test]
fn files_lists_every_owner_once() {
    let mut registry = Dcsc::new();
    assert_eq!(upload(&mut registry, ALICE, 1, "QmA1"), Ok(()));
    assert_eq!(upload(&mut registry, BOB, 2, "QmB1"), Ok(()));
    assert_eq!(upload(&mut registry, ALICE, 3, "QmA2"), Ok(()));
    let listing = registry.files();
    assert_eq!(listing.len(), 2);
    let alice = listing.iter().find(|(who, _)| *who == ALICE).unwrap();
    let bob = listing.iter().find(|(who, _)| *who == BOB).unwrap();
    assert_eq!(cids(&alice.1), vec![b("QmA1"), b("QmA2")]);
    assert_eq!(cids(&bob.1), vec![b("QmB1")]);
}

#[test]
fn queries_do_not_change_the_registry() {
    let mut registry = Dcsc::new();
    assert_eq!(upload(&mut registry, ALICE, 1, "QmA"), Ok(()));
    let first = cids(&registry.user_files(&ALICE));
    let _ = registry.files();
    let _ = registry.get_uploaded_files(&BOB);
    assert_eq!(cids(&registry.user_files(&ALICE)), first);
}

#[test]
fn every_error_has_its_kind_and_message() {
    let all = [
        (Error::EmptyFileHash, ErrorKind::InvalidArgument, "File hash cannot be empty."),
        (Error::ZeroFileSize, ErrorKind::InvalidArgument, "File size must be greater than 0."),
        (Error::EmptyFileName, ErrorKind::InvalidArgument, "File name cannot be empty."),
        (Error::EmptyFileType, ErrorKind::InvalidArgument, "File type cannot be empty."),
        (Error::NoFiles, ErrorKind::NotFound, "File was not found!"),
        (Error::UnknownFile, ErrorKind::NotFound, "Something went wrong!"),
        (Error::DuplicateTag, ErrorKind::DuplicateTag, "This file already has this tag!"),
        (
            Error::TagNotPresent,
            ErrorKind::TagNotPresent,
            "This tag doesn't exist for the selected file!",
        ),
    ];
    for (error, kind, message) in all {
        assert_eq!(error.kind(), kind);
        assert_eq!(error.message(), message);
    }
}
