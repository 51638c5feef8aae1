//! The vault client's side of the daemon: the session with the vault's
//! command-line tool, and the records that the tool hands out.

use std::string::FromUtf8Error;
use std::time::SystemTime;
use time::OffsetDateTime;
use vstd::prelude::*;
use vstd::utf8::{decode_utf8, valid_utf8};
use crate::names::{same_text, texts};

verus! {

/// `time::OffsetDateTime`, a date and time with an offset from UTC. The vault
/// stamps its records with such values; the library hands them on and never
/// looks inside one.
#[verifier::external_type_specification]
#[verifier::external_body]
pub struct ExOffsetDateTime(OffsetDateTime);

/// The point in time that a date of the vault stands for: what the conversion
/// of `time` from `OffsetDateTime` to `SystemTime` returns for it.
pub uninterp spec fn system_time_of(date: OffsetDateTime) -> SystemTime;

/// `SystemTime::from(OffsetDateTime)` of `time`: the same instant, counted from
/// the Unix epoch. The result depends on the date alone. The conversion fails
/// only where `SystemTime` cannot hold the instant; on the Unix systems that
/// this filesystem mounts on it holds every date that an `OffsetDateTime` can.
#[verifier::external_body]
pub(crate) fn system_time(date: OffsetDateTime) -> (t: SystemTime)
    ensures
        t == system_time_of(date),
{
    SystemTime::from(date)
}

/// The sixteen hexadecimal digits, in lower case.
pub open spec fn hex_digits() -> Seq<char> {
    seq!['0', '1', '2', '3', '4', '5', '6', '7', '8', '9', 'a', 'b', 'c', 'd', 'e', 'f']
}

/// The `k`-th of the 32 hexadecimal digits of `id`, counted from the most
/// significant.
pub open spec fn id_digit(id: u128, k: int) -> int {
    (id as int / vstd::arithmetic::power::pow(16, (31 - k) as nat)) % 16
}

/// How many of the 32 digits stand before position `i` of the hyphenated
/// form.
pub open spec fn digits_before(i: int) -> int {
    if i < 8 {
        i
    } else if i < 13 {
        i - 1
    } else if i < 18 {
        i - 2
    } else if i < 23 {
        i - 3
    } else {
        i - 4
    }
}

/// The hyphenated form of an identifier: its 32 hexadecimal digits in lower
/// case, the most significant first, in groups of 8, 4, 4, 4 and 12 with a
/// hyphen between two groups.
pub open spec fn hyphenated(id: u128) -> Seq<char> {
    Seq::new(
        36,
        |i: int|
            if i == 8 || i == 13 || i == 18 || i == 23 {
                '-'
            } else {
                hex_digits()[id_digit(id, digits_before(i))]
            },
    )
}

/// `Uuid::from_u128` and the `Display` of `uuid::Uuid`: the identifier written
/// in its hyphenated lower-case form.
#[verifier::external_body]
pub(crate) fn id_text(id: u128) -> (s: String)
    ensures
        s@ == hyphenated(id),
{
    uuid::Uuid::from_u128(id).to_string()
}

/// What the vault's tool reports of itself.
#[derive(Debug)]
pub struct Status {
    pub last_sync: OffsetDateTime,
    pub user_email: String,
    pub user_id: u128,
    pub status: String,
}

impl Status {
    /// Whether the vault reports itself unlocked.
    pub fn is_unlocked(&self) -> (r: bool)
        ensures
            r == (self.status@ == "unlocked"@),
    {
        same_text(self.status.as_str(), "unlocked")
    }

    /// Whether the vault reports itself locked. A vault that nobody has
    /// logged in to reports neither.
    pub fn is_locked(&self) -> (r: bool)
        ensures
            r == (self.status@ == "locked"@),
    {
        same_text(self.status.as_str(), "locked")
    }
}

/// One entry of the vault.
#[derive(Debug)]
pub struct Secret {
    pub password_history: Option<Vec<SecretPasswordHistory>>,
    pub revision_date: OffsetDateTime,
    pub creation_date: OffsetDateTime,
    pub deleted_date: Option<OffsetDateTime>,
    pub object: String,
    pub id: u128,
    pub organization_id: Option<u128>,
    pub folder_id: Option<u128>,
    pub kind: SecretType,
    pub reprompt: u32,
    pub name: String,
    pub notes: Option<String>,
    pub favorite: bool,
    pub fields: Option<Vec<SecretField>>,
    pub login: Option<SecretLogin>,
    pub collection_ids: Vec<u128>,
}

/// What an entry of the vault is.
#[derive(Clone, Copy, PartialEq, Eq, Debug, Structural)]
pub enum SecretType {
    Login,
    Card,
    Identity,
    SecureNote,
}

impl SecretType {
    /// The type as the file `type` of an entry shows it.
    pub open spec fn text(self) -> Seq<char> {
        match self {
            SecretType::Login => "Login"@,
            SecretType::Card => "Card"@,
            SecretType::Identity => "Identity"@,
            SecretType::SecureNote => "Secure note"@,
        }
    }

    /// The type in words.
    pub fn to_string(&self) -> (s: String)
        ensures
            s@ == self.text(),
    {
        match self {
            SecretType::Login => "Login".to_owned(),
            SecretType::Card => "Card".to_owned(),
            SecretType::Identity => "Identity".to_owned(),
            SecretType::SecureNote => "Secure note".to_owned(),
        }
    }
}

/// The login block of an entry.
#[derive(Debug)]
pub struct SecretLogin {
    pub fido_2_credentials: Vec<String>,
    pub uris: Option<Vec<SecretLoginUri>>,
    pub username: Option<String>,
    pub password: Option<String>,
    pub totp: Option<String>,
    pub password_revision_date: Option<OffsetDateTime>,
}

/// One address of a login.
#[derive(Debug)]
pub struct SecretLoginUri {
    pub matching: Option<String>,
    pub uri: String,
}

/// An earlier password of an entry.
#[derive(Debug)]
pub struct SecretPasswordHistory {
    pub last_used_date: OffsetDateTime,
    pub password: String,
}

/// A custom field of an entry.
#[derive(Debug)]
pub struct SecretField {
    pub name: String,
    pub value: String,
    pub kind: SecretFieldType,
}

/// What a custom field holds.
#[derive(Clone, Copy, PartialEq, Eq, Debug, Structural)]
pub enum SecretFieldType {
    Text,
    Hidden,
    Boolean,
    Linked,
}

/// A folder of the vault. Its name is hierarchical, with `/` between the
/// levels. The folder of the entries that are in no folder has no identifier.
#[derive(Debug)]
pub struct Folder {
    pub object: String,
    pub id: Option<u128>,
    pub name: String,
}

/// `std::string::FromUtf8Error`: why bytes are no UTF-8 text.
#[verifier::external_type_specification]
#[verifier::external_body]
pub struct ExFromUtf8Error(FromUtf8Error);

/// `String::from_utf8` of std: the text that the bytes encode, where they are
/// valid UTF-8, and an error where they are not.
pub assume_specification[ String::from_utf8 ](vec: Vec<u8>) -> (r: Result<String, FromUtf8Error>)
    ensures
        r is Ok <==> valid_utf8(vec@),
        r matches Ok(s) ==> s@ == decode_utf8(vec@),
;

/// The `Display` of `std::string::FromUtf8Error`: the error in words. Nothing
/// is claimed of the wording.
#[verifier::external_body]
fn utf8_error_text(error: FromUtf8Error) -> String {
    error.to_string()
}

/// A command for the vault's tool: the program, its arguments, and what is
/// added to its environment.
#[derive(Debug)]
pub struct CommandLine {
    pub program: String,
    pub args: Vec<String>,
    pub env: Vec<(String, String)>,
}

/// What a run of the vault's tool gave.
#[derive(Debug)]
pub struct CommandOutput {
    /// Whether the tool ended with success.
    pub success: bool,
    /// What it wrote to its output.
    pub stdout: Vec<u8>,
    /// What it wrote to its error output.
    pub stderr: Vec<u8>,
}

/// The variable of the environment that hands the session token to the tool.
pub open spec fn session_variable() -> Seq<char> {
    "BW_SESSION"@
}

/// The variable of the environment that hands the password to the tool.
pub open spec fn password_variable() -> Seq<char> {
    "BWFS_PASSWORD"@
}

/// What a session adds to the environment of a command: its token, where it
/// has one.
pub open spec fn session_env(token: Option<Seq<char>>) -> Seq<(Seq<char>, Seq<char>)> {
    match token {
        Some(t) => seq![(session_variable(), t)],
        None => Seq::empty(),
    }
}

/// The environment of a command as the contracts see it.
pub open spec fn env_texts(env: Seq<(String, String)>) -> Seq<(Seq<char>, Seq<char>)> {
    env.map_values(|e: (String, String)| (e.0@, e.1@))
}

/// The text that a failed run of the tool leaves as the reason: its error
/// output, or nothing where that is no text.
pub open spec fn failure_text(stderr: Seq<u8>) -> Seq<char> {
    if valid_utf8(stderr) {
        decode_utf8(stderr)
    } else {
        Seq::empty()
    }
}

/// The session with the vault's command-line tool: where the tool is, and the
/// token of the unlocked vault while there is one.
pub struct BWCLI {
    path: String,
    session_token: Option<String>,
}

impl BWCLI {
    /// Where the tool is.
    pub closed spec fn path(&self) -> Seq<char> {
        self.path@
    }

    /// The token of the session, while the vault is unlocked.
    pub closed spec fn token(&self) -> Option<Seq<char>> {
        match self.session_token {
            Some(t) => Some(t@),
            None => None,
        }
    }

    /// A session without a token, for the tool at `bin_path`.
    pub fn new(bin_path: String) -> (cli: BWCLI)
        ensures
            cli.path() == bin_path@,
            cli.token() is None,
    {
        BWCLI { path: bin_path, session_token: None }
    }

    /// Whether the session holds a token.
    pub fn has_session(&self) -> (r: bool)
        ensures
            r == self.token() is Some,
    {
        self.session_token.is_some()
    }

    /// The command that runs the tool with these arguments: the token of the
    /// session goes into its environment.
    pub fn command(&self, args: Vec<String>) -> (cmd: CommandLine)
        ensures
            cmd.program@ == self.path(),
            cmd.args == args,
            env_texts(cmd.env@) == session_env(self.token()),
    {
        let mut env: Vec<(String, String)> = Vec::new();
        if let Some(token) = &self.session_token {
            env.push(("BW_SESSION".to_owned(), token.clone()));
        }
        proof {
            assert(env_texts(env@) =~= session_env(self.token()));
        }
        CommandLine { program: self.path.clone(), args, env }
    }

    /// The command that asks the tool for its status.
    pub fn status_command(&self) -> (cmd: CommandLine)
        ensures
            cmd.program@ == self.path(),
            texts(cmd.args@) == seq!["status"@],
            env_texts(cmd.env@) == session_env(self.token()),
    {
        let mut args: Vec<String> = Vec::new();
        args.push("status".to_owned());
        proof {
            assert(texts(args@) =~= seq!["status"@]);
        }
        self.command(args)
    }

    /// The command that lists the entries of the vault.
    pub fn list_secrets_command(&self) -> (cmd: CommandLine)
        ensures
            cmd.program@ == self.path(),
            texts(cmd.args@) == seq!["list"@, "items"@],
            env_texts(cmd.env@) == session_env(self.token()),
    {
        let mut args: Vec<String> = Vec::new();
        args.push("list".to_owned());
        args.push("items".to_owned());
        proof {
            assert(texts(args@) =~= seq!["list"@, "items"@]);
        }
        self.command(args)
    }

    /// The command that lists the folders of the vault.
    pub fn list_folders_command(&self) -> (cmd: CommandLine)
        ensures
            cmd.program@ == self.path(),
            texts(cmd.args@) == seq!["list"@, "folders"@],
            env_texts(cmd.env@) == session_env(self.token()),
    {
        let mut args: Vec<String> = Vec::new();
        args.push("list".to_owned());
        args.push("folders".to_owned());
        proof {
            assert(texts(args@) =~= seq!["list"@, "folders"@]);
        }
        self.command(args)
    }

    /// The command that unlocks the vault: the password goes into its
    /// environment, behind the token of the session where there is one, and
    /// the tool is told to write the new token alone.
    pub fn unlock_command(&self, password: &str) -> (cmd: CommandLine)
        ensures
            cmd.program@ == self.path(),
            texts(cmd.args@) == seq!["unlock"@, "--raw"@, "--passwordenv"@, password_variable()],
            env_texts(cmd.env@) == session_env(self.token()).push(
                (password_variable(), password@),
            ),
    {
        let mut args: Vec<String> = Vec::new();
        args.push("unlock".to_owned());
        args.push("--raw".to_owned());
        args.push("--passwordenv".to_owned());
        args.push("BWFS_PASSWORD".to_owned());
        proof {
            assert(texts(args@) =~= seq![
                "unlock"@,
                "--raw"@,
                "--passwordenv"@,
                password_variable(),
            ]);
        }
        let mut cmd = self.command(args);
        let ghost before = cmd.env@;
        cmd.env.push(("BWFS_PASSWORD".to_owned(), password.to_owned()));
        proof {
            assert(env_texts(cmd.env@) =~= env_texts(before).push(
                (password_variable(), password@),
            ));
        }
        cmd
    }

    /// Takes in what the unlock command gave. Where the tool ended with
    /// success and wrote a text, the text becomes the token of the session.
    /// Else the session stays as it is and the reason is returned: what the
    /// tool wrote to its error output where it failed.
    pub fn unlock(&mut self, output: CommandOutput) -> (r: Result<(), String>)
        ensures
            final(self).path() == old(self).path(),
            r is Ok <==> output.success && valid_utf8(output.stdout@),
            r is Ok ==> final(self).token() == Some(decode_utf8(output.stdout@)),
            r is Err ==> final(self).token() == old(self).token(),
            r matches Err(reason) ==> !output.success ==> reason@ == failure_text(output.stderr@),
    {
        if output.success {
            match String::from_utf8(output.stdout) {
                Ok(token) => {
                    self.session_token = Some(token);
                    Ok(())
                },
                Err(e) => Err(utf8_error_text(e)),
            }
        } else {
            match String::from_utf8(output.stderr) {
                Ok(reason) => Err(reason),
                Err(_) => Err(String::new()),
            }
        }
    }

    /// Forgets the token of the session.
    pub fn lock(&mut self) -> (r: Result<(), String>)
        ensures
            r is Ok,
            final(self).path() == old(self).path(),
            final(self).token() is None,
    {
        self.session_token = None;
        Ok(())
    }
}

} // verus!
