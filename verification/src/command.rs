//! The commands that a driver of the registry understands, by name.

use vstd::prelude::*;

verus! {

/// One command of the driver.
#[derive(Clone, Copy, Debug, PartialEq, Eq, Structural)]
pub enum Command {
    /// Deploy the registry.
    Deploy,
    /// Upgrade the deployed registry.
    Upgrade,
    /// List the whole registry.
    Files,
    /// List the files of one identity.
    UserFiles,
    /// Upload a file.
    UploadFile,
    /// Remove a file.
    RemoveFile,
    /// List the caller's own files.
    GetUploadedFiles,
    /// Add a tag to a file.
    AddTag,
    /// Remove a tag from a file.
    RemoveTag,
}

/// Tells whether two texts hold the same characters.
pub fn same_text(a: &str, b: &str) -> (same: bool)
    ensures
        same == (a@ == b@),
{
    let n = a.unicode_len();
    if n != b.unicode_len() {
        return false;
    }
    let mut i: usize = 0;
    while i < n
        invariant
            n == a@.len(),
            n == b@.len(),
            i <= n,
            forall|k: int| 0 <= k < i ==> a@[k] == b@[k],
        decreases n - i,
    {
        if a.get_char(i) != b.get_char(i) {
            return false;
        }
        i += 1;
    }
    assert(a@ =~= b@);
    true
}

impl Command {
    /// The name under which the command is given.
    pub open spec fn spec_name(self) -> Seq<char> {
        match self {
            Command::Deploy => "deploy"@,
            Command::Upgrade => "upgrade"@,
            Command::Files => "files"@,
            Command::UserFiles => "userFiles"@,
            Command::UploadFile => "uploadFile"@,
            Command::RemoveFile => "removeFile"@,
            Command::GetUploadedFiles => "getUploadedFiles"@,
            Command::AddTag => "addTag"@,
            Command::RemoveTag => "removeTag"@,
        }
    }

    /// The command that `name` stands for, if it stands for one.
    pub open spec fn named(name: Seq<char>) -> Option<Command> {
        if name == "deploy"@ {
            Some(Command::Deploy)
        } else if name == "upgrade"@ {
            Some(Command::Upgrade)
        } else if name == "files"@ {
            Some(Command::Files)
        } else if name == "userFiles"@ {
            Some(Command::UserFiles)
        } else if name == "uploadFile"@ {
            Some(Command::UploadFile)
        } else if name == "removeFile"@ {
            Some(Command::RemoveFile)
        } else if name == "getUploadedFiles"@ {
            Some(Command::GetUploadedFiles)
        } else if name == "addTag"@ {
            Some(Command::AddTag)
        } else if name == "removeTag"@ {
            Some(Command::RemoveTag)
        } else {
            None
        }
    }

    /// The name under which this command is given.
    pub fn name(self) -> (text: &'static str)
        ensures
            text@ == self.spec_name(),
    {
        match self {
            Command::Deploy => "deploy",
            Command::Upgrade => "upgrade",
            Command::Files => "files",
            Command::UserFiles => "userFiles",
            Command::UploadFile => "uploadFile",
            Command::RemoveFile => "removeFile",
            Command::GetUploadedFiles => "getUploadedFiles",
            Command::AddTag => "addTag",
            Command::RemoveTag => "removeTag",
        }
    }

    /// Reads a command from its name; a name that stands for none gives `None`.
    pub fn parse(name: &str) -> (command: Option<Command>)
        ensures
            command == Command::named(name@),
    {
        if same_text(name, "deploy") {
            Some(Command::Deploy)
        } else if same_text(name, "upgrade") {
            Some(Command::Upgrade)
        } else if same_text(name, "files") {
            Some(Command::Files)
        } else if same_text(name, "userFiles") {
            Some(Command::UserFiles)
        } else if same_text(name, "uploadFile") {
            Some(Command::UploadFile)
        } else if same_text(name, "removeFile") {
            Some(Command::RemoveFile)
        } else if same_text(name, "getUploadedFiles") {
            Some(Command::GetUploadedFiles)
        } else if same_text(name, "addTag") {
            Some(Command::AddTag)
        } else if same_text(name, "removeTag") {
            Some(Command::RemoveTag)
        } else {
            None
        }
    }
}

/// Every command is read back from its own name.
pub proof fn lemma_name_is_read_back(command: Command)
    ensures
        Command::named(command.spec_name()) == Some(command),
{
    reveal_strlit("deploy");
    reveal_strlit("upgrade");
    reveal_strlit("files");
    reveal_strlit("userFiles");
    reveal_strlit("uploadFile");
    reveal_strlit("removeFile");
    reveal_strlit("getUploadedFiles");
    reveal_strlit("addTag");
    reveal_strlit("removeTag");
    assert("deploy"@.len() == 6);
    assert("upgrade"@.len() == 7);
    assert("files"@.len() == 5);
    assert("userFiles"@.len() == 9);
    assert("uploadFile"@.len() == 10);
    assert("removeFile"@.len() == 10);
    assert("getUploadedFiles"@.len() == 16);
    assert("addTag"@.len() == 6);
    assert("removeTag"@.len() == 9);
    assert("deploy"@[0] == 'd' && "addTag"@[0] == 'a');
    assert("userFiles"@[0] == 'u' && "removeTag"@[0] == 'r');
    assert("uploadFile"@[0] == 'u' && "removeFile"@[0] == 'r');
}

} // verus!
