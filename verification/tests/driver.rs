use dcsc::command::{same_text, Command};
use dcsc::deployment::State;
use multiversx_sc_snippets::imports::{Address, Bech32Address};

#[test]
fn same_text_compares_characters() {
    assert!(same_text("", ""));
    assert!(same_text("addTag", "addTag"));
    assert!(!same_text("addTag", "addtag"));
    assert!(!same_text("addTag", "addTa"));
    assert!(!same_text("", "a"));
    assert!(same_text("h\u{e9}llo", "h\u{e9}llo"));
    assert!(!same_text("h\u{e9}llo", "hello"));
}

#[test]
fn every_command_is_read_from_its_name() {
    assert_eq!(Command::parse("deploy"), Some(Command::Deploy));
    assert_eq!(Command::parse("upgrade"), Some(Command::Upgrade));
    assert_eq!(Command::parse("files"), Some(Command::Files));
    assert_eq!(Command::parse("userFiles"), Some(Command::UserFiles));
    assert_eq!(Command::parse("uploadFile"), Some(Command::UploadFile));
    assert_eq!(Command::parse("removeFile"), Some(Command::RemoveFile));
    assert_eq!(Command::parse("getUploadedFiles"), Some(Command::GetUploadedFiles));
    assert_eq!(Command::parse("addTag"), Some(Command::AddTag));
    assert_eq!(Command::parse("removeTag"), Some(Command::RemoveTag));
}

#[test]
fn unknown_names_are_no_command() {
    assert_eq!(Command::parse(""), None);
    assert_eq!(Command::parse("Deploy"), None);
    assert_eq!(Command::parse("deploy "), None);
    assert_eq!(Command::parse("user_files"), None);
    assert_eq!(Command::parse("removeTags"), None);
}

#[test]
fn command_names_round_trip() {
    let all = [
        Command::Deploy,
        Command::Upgrade,
        Command::Files,
        Command::UserFiles,
        Command::UploadFile,
        Command::RemoveFile,
        Command::GetUploadedFiles,
        Command::AddTag,
        Command::RemoveTag,
    ];
    for command in all {
        assert_eq!(Command::parse(command.name()), Some(command));
    }
    assert_eq!(Command::UserFiles.name(), "userFiles");
    assert_eq!(Command::GetUploadedFiles.name(), "getUploadedFiles");
}

#[test]
fn state_starts_without_an_address() {
    let state = State::default();
    assert_eq!(state.known_address(), None);
    assert_eq!(State::from_stored(None).known_address(), None);
}

#[test]
fn state_keeps_the_address_it_is_given() {
    let mut state = State::default();
    state.set_address("erd1first".to_string());
    assert_eq!(state.current_address(), "erd1first");
    state.set_address("erd1second".to_string());
    assert_eq!(state.current_address(), "erd1second");
    assert_eq!(state.known_address(), Some(&"erd1second".to_string()));
    let stored = State::from_stored(Some("erd1stored".to_string()));
    assert_eq!(stored.current_address(), "erd1stored");
}

#[test]
fn deployment_is_recorded_as_bech32_text() {
    let mut state = State::default();
    let text = state.record_deployment(&[0u8; 32]);
    assert_eq!(text, "erd1qqqqqqqqqqqqqqqqqqqqqqqqqqqqqqqqqqqqqqqqqqqqqqqqqqqq6gq4hu");
    assert_eq!(state.current_address(), &text);
}

#[test]
fn recorded_text_decodes_to_the_address() {
    let mut bytes = [0u8; 32];
    for (i, byte) in bytes.iter_mut().enumerate() {
        *byte = (i * 7 + 1) as u8;
    }
    let mut state = State::default();
    let text = state.record_deployment(&bytes);
    assert!(text.starts_with("erd1"));
    assert_eq!(text.len(), 62);
    let decoded = Bech32Address::from_bech32_string(text.clone());
    assert_eq!(decoded.to_address(), Address::new(bytes));
    assert_eq!(decoded.to_hrp(), "erd");
    assert_eq!(state.known_address(), Some(&text));
    let again = state.record_deployment(&bytes);
    assert_eq!(again, text);
}
