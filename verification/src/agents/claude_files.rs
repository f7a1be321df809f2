//! What is required of a settings file on disk, and how its identity is told.

use vstd::prelude::*;
use crate::agents::discovery::{AgentKindV1, ConfigLayerV1};
use crate::agents::filesystem::AgentFilesystemScanError;
use crate::digest::{digest_of, is_digest_text, is_lower_hex, CanonicalDigest};
use crate::paths::{path_steps, steps_of};
use crate::text::{
    after_prefix, chars_of, decimal, decimal_text, same, signed_decimal, signed_decimal_text,
    starts_with, text_of, views_of,
};

verus! {

/// The largest file that is read, in bytes.
pub const MAX_FILE_BYTES: u64 = 1_048_576;

/// What the file system says of a file.
#[derive(Clone, Copy, Debug, PartialEq, Eq, Structural)]
pub struct FileFacts {
    pub is_symlink: bool,
    pub is_file: bool,
    pub dev: u64,
    pub ino: u64,
    pub uid: u32,
    pub gid: u32,
    pub nlink: u64,
    pub len: u64,
    pub mode: u32,
    pub mtime: i64,
    pub mtime_nsec: i64,
    pub ctime: i64,
    pub ctime_nsec: i64,
}

/// Whether a file may be read as a system setting: a regular file of the user's or of the system's
/// owner, with one name, that no other can write.
pub open spec fn system_fault(file: FileFacts, user: u32) -> Option<AgentFilesystemScanError> {
    if !file.is_file || file.is_symlink {
        Some(AgentFilesystemScanError::InvalidConfig)
    } else if file.uid != 0 && file.uid != user {
        Some(AgentFilesystemScanError::WrongOwner)
    } else if file.nlink != 1 || file.mode & 0o022 != 0 {
        Some(AgentFilesystemScanError::UnsafePermissions)
    } else {
        None
    }
}

/// Whether a file is a regular one of the user's.
pub open spec fn owner_fault(file: FileFacts, user: u32) -> Option<AgentFilesystemScanError> {
    if file.is_symlink {
        Some(AgentFilesystemScanError::SymlinkConfig)
    } else if !file.is_file {
        Some(AgentFilesystemScanError::InvalidConfig)
    } else if file.uid != user {
        Some(AgentFilesystemScanError::WrongOwner)
    } else {
        None
    }
}

/// Whether a file may be read as the user's setting: a regular file of theirs, with one name, that
/// no other can write.
pub open spec fn user_fault(file: FileFacts, user: u32) -> Option<AgentFilesystemScanError> {
    match owner_fault(file, user) {
        Some(fault) => Some(fault),
        None => if file.nlink != 1 {
            Some(AgentFilesystemScanError::InvalidConfig)
        } else if file.mode & 0o022 != 0 {
            Some(AgentFilesystemScanError::UnsafePermissions)
        } else {
            None
        },
    }
}

pub fn validate_system_config_metadata(file: &FileFacts, user: u32) -> (r: Result<
    (),
    AgentFilesystemScanError,
>)
    ensures
        r == match system_fault(*file, user) {
            Some(fault) => Err::<(), _>(fault),
            None => Ok(()),
        },
{
    if !file.is_file || file.is_symlink {
        return Err(AgentFilesystemScanError::InvalidConfig);
    }
    if file.uid != 0 && file.uid != user {
        return Err(AgentFilesystemScanError::WrongOwner);
    }
    if file.nlink != 1 || file.mode & 0o022 != 0 {
        return Err(AgentFilesystemScanError::UnsafePermissions);
    }
    Ok(())
}

pub fn validate_file_kind_and_owner(file: &FileFacts, user: u32) -> (r: Result<
    (),
    AgentFilesystemScanError,
>)
    ensures
        r == match owner_fault(*file, user) {
            Some(fault) => Err::<(), _>(fault),
            None => Ok(()),
        },
{
    if file.is_symlink {
        return Err(AgentFilesystemScanError::SymlinkConfig);
    }
    if !file.is_file {
        return Err(AgentFilesystemScanError::InvalidConfig);
    }
    if file.uid != user {
        return Err(AgentFilesystemScanError::WrongOwner);
    }
    Ok(())
}

pub fn validate_config_file(file: &FileFacts, user: u32) -> (r: Result<
    (),
    AgentFilesystemScanError,
>)
    ensures
        r == match user_fault(*file, user) {
            Some(fault) => Err::<(), _>(fault),
            None => Ok(()),
        },
{
    match validate_file_kind_and_owner(file, user) {
        Ok(()) => {},
        Err(error) => return Err(error),
    }
    if file.nlink != 1 {
        return Err(AgentFilesystemScanError::InvalidConfig);
    }
    if file.mode & 0o022 != 0 {
        return Err(AgentFilesystemScanError::UnsafePermissions);
    }
    Ok(())
}

/// Whether two looks at a file saw the same one, unchanged.
pub open spec fn is_same_file(a: FileFacts, b: FileFacts) -> bool {
    &&& a.dev == b.dev
    &&& a.ino == b.ino
    &&& a.uid == b.uid
    &&& a.gid == b.gid
    &&& a.nlink == b.nlink
    &&& a.len == b.len
    &&& a.mtime == b.mtime
    &&& a.mtime_nsec == b.mtime_nsec
    &&& a.ctime == b.ctime
    &&& a.ctime_nsec == b.ctime_nsec
    &&& a.mode & 0o777 == b.mode & 0o777
}

pub fn same_file_identity(a: &FileFacts, b: &FileFacts) -> (r: bool)
    ensures
        r == is_same_file(*a, *b),
{
    a.dev == b.dev && a.ino == b.ino && a.uid == b.uid && a.gid == b.gid && a.nlink == b.nlink
        && a.len == b.len && a.mtime == b.mtime && a.mtime_nsec == b.mtime_nsec && a.ctime
        == b.ctime && a.ctime_nsec == b.ctime_nsec && a.mode & 0o777 == b.mode & 0o777
}

/// A read of a settings file in progress: first its place is looked at, then it is opened, then
/// its bytes are read.
#[derive(Clone, Copy, Debug, PartialEq, Eq, Structural)]
pub enum ReadStep {
    /// There is no file.
    Absent,
    /// Open the file without following a link.
    Open,
}

pub open spec fn look_fault(file: FileFacts, user: u32, system: bool) -> Option<
    AgentFilesystemScanError,
> {
    let fault = if system {
        system_fault(file, user)
    } else {
        user_fault(file, user)
    };
    match fault {
        Some(fault) => Some(fault),
        None => if file.len > MAX_FILE_BYTES {
            Some(AgentFilesystemScanError::ConfigTooLarge)
        } else {
            None
        },
    }
}

/// Decides on a settings file before it is opened.
pub fn on_look(file: Option<&FileFacts>, user: u32, system: bool) -> (r: Result<
    ReadStep,
    AgentFilesystemScanError,
>)
    ensures
        r == match file {
            None => Ok(ReadStep::Absent),
            Some(file) => match look_fault(*file, user, system) {
                Some(fault) => Err(fault),
                None => Ok(ReadStep::Open),
            },
        },
{
    let file = match file {
        Some(file) => file,
        None => return Ok(ReadStep::Absent),
    };
    let valid = if system {
        validate_system_config_metadata(file, user)
    } else {
        validate_config_file(file, user)
    };
    match valid {
        Ok(()) => {},
        Err(error) => return Err(error),
    }
    if file.len > MAX_FILE_BYTES {
        return Err(AgentFilesystemScanError::ConfigTooLarge);
    }
    Ok(ReadStep::Open)
}

/// Decides on a settings file when it is open: it must be the one that was looked at.
pub fn on_open(looked_at: &FileFacts, opened: &FileFacts, user: u32, system: bool) -> (r: Result<
    (),
    AgentFilesystemScanError,
>)
    ensures
        ({
            let fault = if system {
                system_fault(*opened, user)
            } else {
                owner_fault(*opened, user)
            };
            r == match fault {
                Some(fault) => Err::<(), _>(fault),
                None => if is_same_file(*looked_at, *opened) {
                    Ok(())
                } else {
                    Err(AgentFilesystemScanError::SourceChanged)
                },
            }
        }),
{
    let valid = if system {
        validate_system_config_metadata(opened, user)
    } else {
        validate_file_kind_and_owner(opened, user)
    };
    match valid {
        Ok(()) => {},
        Err(error) => return Err(error),
    }
    if !same_file_identity(looked_at, opened) {
        return Err(AgentFilesystemScanError::SourceChanged);
    }
    Ok(())
}

/// Decides on the bytes of a settings file: not too many, and of a file that has not changed while
/// it was read.
pub fn on_read(opened: &FileFacts, bytes: u64, after: &FileFacts) -> (r: Result<
    (),
    AgentFilesystemScanError,
>)
    ensures
        r == (if bytes > MAX_FILE_BYTES {
            Err::<(), _>(AgentFilesystemScanError::ConfigTooLarge)
        } else if !is_same_file(*opened, *after) || after.len != bytes {
            Err(AgentFilesystemScanError::SourceChanged)
        } else {
            Ok(())
        }),
{
    if bytes > MAX_FILE_BYTES {
        return Err(AgentFilesystemScanError::ConfigTooLarge);
    }
    if !same_file_identity(opened, after) || after.len != bytes {
        return Err(AgentFilesystemScanError::SourceChanged);
    }
    Ok(())
}

/// A file that was read whole was of the right kind, was the same all along, and has as many bytes
/// as were read.
pub proof fn reads_are_of_one_file(
    looked_at: FileFacts,
    opened: FileFacts,
    after: FileFacts,
    bytes: u64,
    user: u32,
)
    requires
        look_fault(looked_at, user, false) is None,
        is_same_file(looked_at, opened),
        is_same_file(opened, after),
        bytes <= MAX_FILE_BYTES,
        after.len == bytes,
    ensures
        is_same_file(looked_at, after),
        looked_at.len == bytes,
        after.uid == user,
        after.nlink == 1,
        after.mode & 0o022 == 0,
{
    let before = looked_at.mode;
    let now = after.mode;
    assert(before & 0o022 == (before & 0o777) & 0o022) by (bit_vector);
    assert(now & 0o022 == (now & 0o777) & 0o022) by (bit_vector);
}

/// The number that hexadecimal digits denote.
pub open spec fn hex_value(s: Seq<char>) -> nat
    decreases s.len(),
{
    if s.len() == 0 {
        0
    } else {
        16 * hex_value(s.drop_last()) + hex_digit_value(s.last())
    }
}

pub open spec fn hex_digit_value(c: char) -> nat {
    if c as u32 <= 57 {
        (c as u32 - 48) as nat
    } else {
        (c as u32 - 87) as nat
    }
}

fn digit_value(c: char) -> (r: u64)
    requires
        is_lower_hex(c),
    ensures
        r == hex_digit_value(c),
        r < 16,
{
    let code = c as u32;
    if code <= 57 {
        (code - 48) as u64
    } else {
        (code - 87) as u64
    }
}

/// The revision that a digest stands for: the number of its first sixteen digits, and at least one.
pub open spec fn revision_of(digest: Seq<char>) -> nat {
    let value = hex_value(digest.subrange(7, 23));
    if value == 0 {
        1
    } else {
        value
    }
}

proof fn lemma_digest_digits(digest: Seq<char>)
    requires
        is_digest_text(digest),
    ensures
        digest.len() == 71,
        forall|i: int| 7 <= i < 71 ==> is_lower_hex(#[trigger] digest[i]),
{
    reveal_strlit("sha256:");
    let rest = after_prefix(digest, "sha256:"@)->0;
    assert("sha256:"@.len() == 7);
    assert(digest.len() == 71);
    assert forall|i: int| 7 <= i < 71 implies is_lower_hex(#[trigger] digest[i]) by {
        assert(digest[i] == rest[i - 7]);
    }
}

pub fn revision_from_digest(digest: &CanonicalDigest) -> (r: u64)
    ensures
        r == revision_of(digest@),
{
    let chars = chars_of(digest.as_str());
    proof {
        lemma_digest_digits(digest@);
    }
    let ghost part = digest@.subrange(7, 23);
    let mut value: u64 = 0;
    let mut i: usize = 7;
    assert(part.take(0) == Seq::<char>::empty());
    while i < 23
        invariant
            7 <= i <= 23,
            chars@ == digest@,
            chars@.len() == 71,
            part == digest@.subrange(7, 23),
            forall|j: int| 7 <= j < 71 ==> is_lower_hex(#[trigger] chars@[j]),
            value == hex_value(part.take(i - 7)),
            i <= 7 ==> value < 0x1,
            i == 8 ==> value < 0x10,
            i == 9 ==> value < 0x100,
            i == 10 ==> value < 0x1000,
            i == 11 ==> value < 0x1_0000,
            i == 12 ==> value < 0x10_0000,
            i == 13 ==> value < 0x100_0000,
            i == 14 ==> value < 0x1000_0000,
            i == 15 ==> value < 0x1_0000_0000,
            i == 16 ==> value < 0x10_0000_0000,
            i == 17 ==> value < 0x100_0000_0000,
            i == 18 ==> value < 0x1000_0000_0000,
            i == 19 ==> value < 0x1_0000_0000_0000,
            i == 20 ==> value < 0x10_0000_0000_0000,
            i == 21 ==> value < 0x100_0000_0000_0000,
            i == 22 ==> value < 0x1000_0000_0000_0000,
        decreases 23 - i,
    {
        proof {
            assert(part.take(i - 7 + 1).drop_last() == part.take(i - 7));
            assert(part.take(i - 7 + 1).last() == chars@[i as int]);
        }
        value = value * 16 + digit_value(chars[i]);
        i += 1;
    }
    assert(part.take(16) == part);
    if value == 0 {
        1
    } else {
        value
    }
}

/// The text that the identity of a file's content and place is made of.
pub open spec fn content_text(file: FileFacts, digest: Seq<char>) -> Seq<char> {
    decimal_text(file.dev as nat) + "\0"@ + decimal_text(file.ino as nat) + "\0"@ + decimal_text(
        file.mode as nat,
    ) + "\0"@ + decimal_text(file.len as nat) + "\0"@ + digest
}

fn zero(text: &mut String)
    ensures
        final(text)@ == old(text)@ + "\0"@,
{
    text.append("\0");
}

/// The revision of a file that was read.
pub fn metadata_revision(file: &FileFacts, digest: &CanonicalDigest) -> (r: u64)
    ensures
        r == revision_of(digest_of(vstd::utf8::encode_utf8(content_text(*file, digest@)))),
{
    let mut text = decimal(file.dev);
    zero(&mut text);
    text.append(decimal(file.ino).as_str());
    zero(&mut text);
    text.append(decimal(file.mode as u64).as_str());
    zero(&mut text);
    text.append(decimal(file.len).as_str());
    zero(&mut text);
    text.append(digest.as_str());
    revision_from_digest(&CanonicalDigest::of_bytes(text.as_str().as_bytes()))
}

/// The text that the identity of a file is made of. The time of its last change is part of it, so
/// that a file that was made anew is another one even where its number is used again. Its
/// permissions are not.
pub open spec fn identity_text(file: FileFacts) -> Seq<char> {
    "agent-config-identity/v2"@ + "\0"@ + decimal_text(file.dev as nat) + "\0"@ + decimal_text(
        file.ino as nat,
    ) + "\0"@ + decimal_text(file.uid as nat) + "\0"@ + decimal_text(file.gid as nat) + "\0"@
        + decimal_text(file.nlink as nat) + "\0"@ + decimal_text(file.len as nat) + "\0"@
        + signed_decimal_text(file.mtime as int) + "\0"@ + signed_decimal_text(
        file.mtime_nsec as int,
    )
}

pub open spec fn file_identity(file: FileFacts) -> Seq<char> {
    digest_of(vstd::utf8::encode_utf8(identity_text(file)))
}

pub fn stable_identity_from_metadata(file: &FileFacts) -> (r: CanonicalDigest)
    ensures
        r@ == file_identity(*file),
{
    let mut text = "agent-config-identity/v2".to_owned();
    zero(&mut text);
    text.append(decimal(file.dev).as_str());
    zero(&mut text);
    text.append(decimal(file.ino).as_str());
    zero(&mut text);
    text.append(decimal(file.uid as u64).as_str());
    zero(&mut text);
    text.append(decimal(file.gid as u64).as_str());
    zero(&mut text);
    text.append(decimal(file.nlink).as_str());
    zero(&mut text);
    text.append(decimal(file.len).as_str());
    zero(&mut text);
    text.append(signed_decimal(file.mtime).as_str());
    zero(&mut text);
    text.append(signed_decimal(file.mtime_nsec).as_str());
    CanonicalDigest::of_bytes(text.as_str().as_bytes())
}

/// The revision of a file's permissions.
pub open spec fn permission_revision_of(identity: Seq<char>, mode: u32) -> nat {
    revision_of(
        digest_of(
            vstd::utf8::encode_utf8(
                "agent-config-permission/v1"@ + "\0"@ + identity + "\0"@ + decimal_text(
                    (mode & 0o777) as nat,
                ),
            ),
        ),
    )
}

pub fn permission_revision(identity: &CanonicalDigest, mode: u32) -> (r: u64)
    ensures
        r == permission_revision_of(identity@, mode),
{
    let mut text = "agent-config-permission/v1".to_owned();
    zero(&mut text);
    text.append(identity.as_str());
    zero(&mut text);
    text.append(decimal((mode & 0o777) as u64).as_str());
    revision_from_digest(&CanonicalDigest::of_bytes(text.as_str().as_bytes()))
}

/// The agent's name, as its references and directories begin with it.
pub open spec fn own_name() -> Seq<char> {
    AgentKindV1::ClaudeCode.command()
}

/// A text after the agent's name.
pub(crate) fn named(text: &str) -> (r: String)
    ensures
        r@ == own_name() + text@,
{
    let mut out = AgentKindV1::ClaudeCode.command_text();
    out.append(text);
    out
}

/// The agent's directory in a home or a project.
pub open spec fn own_directory() -> Seq<char> {
    "."@ + own_name()
}

/// A text after the name of the agent's directory.
pub(crate) fn below_own_directory(text: &str) -> (r: String)
    ensures
        r@ == own_directory() + text@,
{
    let mut out = ".".to_owned();
    out.append(AgentKindV1::ClaudeCode.command_text().as_str());
    out.append(text);
    out
}

/// The reference of a settings file: part of the digest of its layer and path.
pub open spec fn settings_ref(path: Seq<char>, layer: ConfigLayerV1) -> Seq<char> {
    own_name() + "/settings/"@ + digest_of(
        vstd::utf8::encode_utf8(own_name() + "-settings\0"@ + layer.label() + "\0"@ + path),
    ).subrange(7, 39)
}

pub fn source_ref(path: &str, layer: ConfigLayerV1) -> (r: String)
    ensures
        r@ == settings_ref(path@, layer),
{
    let mut text = named("-settings\0");
    text.append(layer.label_text());
    zero(&mut text);
    text.append(path);
    let digest = CanonicalDigest::of_bytes(text.as_str().as_bytes());
    let chars = chars_of(digest.as_str());
    proof {
        lemma_digest_digits(digest@);
    }
    let part = vstd::slice::slice_subrange(chars.as_slice(), 7, 39);
    let mut out = named("/settings/");
    out.append(text_of(part).as_str());
    out
}

/// A finding that a settings file is open to others. It holds no path and no content.
#[derive(Debug)]
pub struct PermissionHardeningRequiredV1 {
    pub scanner_id: String,
    pub scanner_version: String,
    pub discovered_source_ref: String,
    pub observed_identity: CanonicalDigest,
    pub observed_revision: u64,
    pub display_path: String,
    pub required_mode: u32,
}

#[derive(Clone, Copy, Debug, PartialEq, Eq, Structural)]
pub enum PermissionHardeningOutcomeV1 {
    Hardened,
    AlreadyHardened,
}

pub const FILESYSTEM_AGENT_SCANNER_ID_V1: &'static str = "builtin.agent-filesystem";

pub const FILESYSTEM_AGENT_SCANNER_VERSION_V1: &'static str = "1";

pub const REQUIRED_MODE: u32 = 0o600;

/// The name of a file: the last step of its path, unless that goes up.
pub open spec fn file_name_of(path: Seq<char>) -> Seq<char> {
    let steps = path_steps(path);
    if steps.len() > 0 && steps.last() != ".."@ {
        steps.last()
    } else {
        "settings.json"@
    }
}

/// How a settings file is shown: its layer and its name, never where it is.
pub open spec fn shown_path(layer: ConfigLayerV1, path: Seq<char>) -> Seq<char> {
    let name = file_name_of(path);
    match layer {
        ConfigLayerV1::Process => "process environment"@,
        ConfigLayerV1::Launch => "launch/"@ + name,
        ConfigLayerV1::Project => own_directory() + "/"@ + name,
        ConfigLayerV1::User => "~/"@ + (own_directory() + "/"@) + name,
        ConfigLayerV1::Managed => "managed/"@ + name,
    }
}

pub fn display_path(layer: ConfigLayerV1, path: &str) -> (r: String)
    ensures
        r@ == shown_path(layer, path@),
{
    let mut steps = steps_of(path);
    let ghost all = views_of(steps@);
    let name = match steps.pop() {
        Some(last) => {
            assert(all.last() == last@);
            if same(last.as_str(), "..") {
                "settings.json".to_owned()
            } else {
                last
            }
        },
        None => "settings.json".to_owned(),
    };
    let mut out = match layer {
        ConfigLayerV1::Process => {
            return "process environment".to_owned();
        },
        ConfigLayerV1::Launch => "launch/".to_owned(),
        ConfigLayerV1::Project => below_own_directory("/"),
        ConfigLayerV1::User => {
            let mut out = "~/".to_owned();
            out.append(below_own_directory("/").as_str());
            out
        },
        ConfigLayerV1::Managed => "managed/".to_owned(),
    };
    out.append(name.as_str());
    out
}

/// Whether a finding is that of a settings file which is open to others.
pub open spec fn is_finding_of(
    finding: PermissionHardeningRequiredV1,
    layer: ConfigLayerV1,
    path: Seq<char>,
    file: FileFacts,
) -> bool {
    &&& finding.scanner_id@ == FILESYSTEM_AGENT_SCANNER_ID_V1@
    &&& finding.scanner_version@ == FILESYSTEM_AGENT_SCANNER_VERSION_V1@
    &&& finding.discovered_source_ref@ == settings_ref(path, layer)
    &&& finding.observed_identity@ == file_identity(file)
    &&& finding.observed_revision == permission_revision_of(file_identity(file), file.mode)
    &&& finding.display_path@ == shown_path(layer, path)
    &&& finding.required_mode == REQUIRED_MODE
}

/// Looks whether a settings file is open to others. An absent one is not.
pub fn permission_hardening_required(
    layer: ConfigLayerV1,
    path: &str,
    file: Option<&FileFacts>,
    user: u32,
) -> (r: Result<Option<PermissionHardeningRequiredV1>, AgentFilesystemScanError>)
    ensures
        match file {
            None => r matches Ok(None),
            Some(file) => match owner_fault(*file, user) {
                Some(fault) => r matches Err(error) && error == fault,
                None => if file.nlink != 1 {
                    r matches Err(error) && error == AgentFilesystemScanError::InvalidConfig
                } else if file.mode & 0o077u32 != 0 {
                    r matches Ok(Some(finding)) && is_finding_of(finding, layer, path@, *file)
                } else {
                    r matches Ok(None)
                },
            },
        },
{
    let file = match file {
        Some(file) => file,
        None => {
            return Ok(None);
        },
    };
    match validate_file_kind_and_owner(file, user) {
        Ok(()) => {},
        Err(error) => {
            return Err(error);
        },
    }
    if file.nlink != 1 {
        return Err(AgentFilesystemScanError::InvalidConfig);
    }
    if file.mode & 0o077u32 != 0 {
        let identity = stable_identity_from_metadata(file);
        let observed_revision = permission_revision(&identity, file.mode);
        return Ok(
            Some(
                PermissionHardeningRequiredV1 {
                    scanner_id: FILESYSTEM_AGENT_SCANNER_ID_V1.to_owned(),
                    scanner_version: FILESYSTEM_AGENT_SCANNER_VERSION_V1.to_owned(),
                    discovered_source_ref: source_ref(path, layer),
                    observed_identity: identity,
                    observed_revision,
                    display_path: display_path(layer, path),
                    required_mode: REQUIRED_MODE,
                },
            ),
        );
    }
    Ok(None)
}

/// Whether a finding is one that this scanner makes.
pub open spec fn is_finding(finding: PermissionHardeningRequiredV1) -> bool {
    &&& finding.scanner_id@ == FILESYSTEM_AGENT_SCANNER_ID_V1@
    &&& finding.scanner_version@ == FILESYSTEM_AGENT_SCANNER_VERSION_V1@
    &&& after_prefix(finding.discovered_source_ref@, own_name() + "/settings/"@) is Some
    &&& finding.observed_revision != 0
    &&& finding.required_mode == REQUIRED_MODE
}

pub fn validate_hardening_finding(finding: &PermissionHardeningRequiredV1) -> (r: Result<
    (),
    AgentFilesystemScanError,
>)
    ensures
        r == (if is_finding(*finding) {
            Ok(())
        } else {
            Err::<(), _>(AgentFilesystemScanError::InvalidDescriptor)
        }),
{
    if same(finding.scanner_id.as_str(), FILESYSTEM_AGENT_SCANNER_ID_V1) && same(
        finding.scanner_version.as_str(),
        FILESYSTEM_AGENT_SCANNER_VERSION_V1,
    ) && starts_with(finding.discovered_source_ref.as_str(), named("/settings/").as_str())
        && finding.observed_revision != 0 && finding.required_mode == REQUIRED_MODE {
        Ok(())
    } else {
        Err(AgentFilesystemScanError::InvalidDescriptor)
    }
}

/// What to do with the permissions of an open file.
#[derive(Clone, Copy, Debug, PartialEq, Eq, Structural)]
pub enum HardeningStep {
    AlreadyHardened,
    /// Set the required mode on the open file.
    SetMode,
}

/// Decides on the permissions of an open file: it must be the file that was found, and its
/// permissions those that were found, unless they are right already.
pub fn on_harden(
    finding: &PermissionHardeningRequiredV1,
    path: &str,
    layer: ConfigLayerV1,
    opened: &FileFacts,
    user: u32,
) -> (r: Result<HardeningStep, AgentFilesystemScanError>)
    ensures
        r == (if settings_ref(path@, layer) != finding.discovered_source_ref@ {
            Err(AgentFilesystemScanError::InvalidDescriptor)
        } else if !opened.is_file || opened.uid != user || opened.nlink != 1 || file_identity(
            *opened,
        ) != finding.observed_identity@ {
            Err(AgentFilesystemScanError::SourceChanged)
        } else if opened.mode & 0o777 == REQUIRED_MODE {
            Ok(HardeningStep::AlreadyHardened)
        } else if permission_revision_of(file_identity(*opened), opened.mode)
            != finding.observed_revision {
            Err(AgentFilesystemScanError::SourceChanged)
        } else {
            Ok(HardeningStep::SetMode)
        }),
{
    if !same(source_ref(path, layer).as_str(), finding.discovered_source_ref.as_str()) {
        return Err(AgentFilesystemScanError::InvalidDescriptor);
    }
    if !opened.is_file || opened.uid != user || opened.nlink != 1 {
        return Err(AgentFilesystemScanError::SourceChanged);
    }
    let identity = stable_identity_from_metadata(opened);
    if !identity.equals(&finding.observed_identity) {
        return Err(AgentFilesystemScanError::SourceChanged);
    }
    if opened.mode & 0o777 == REQUIRED_MODE {
        return Ok(HardeningStep::AlreadyHardened);
    }
    if permission_revision(&identity, opened.mode) != finding.observed_revision {
        return Err(AgentFilesystemScanError::SourceChanged);
    }
    Ok(HardeningStep::SetMode)
}

/// Decides on a file whose mode was set: it is still the file that was found and has the mode.
pub fn on_hardened(finding: &PermissionHardeningRequiredV1, after: &FileFacts) -> (r: Result<
    PermissionHardeningOutcomeV1,
    AgentFilesystemScanError,
>)
    ensures
        r == (if file_identity(*after) != finding.observed_identity@ || after.mode & 0o777
            != REQUIRED_MODE {
            Err(AgentFilesystemScanError::SourceChanged)
        } else {
            Ok(PermissionHardeningOutcomeV1::Hardened)
        }),
{
    if !stable_identity_from_metadata(after).equals(&finding.observed_identity) || after.mode
        & 0o777 != REQUIRED_MODE {
        return Err(AgentFilesystemScanError::SourceChanged);
    }
    Ok(PermissionHardeningOutcomeV1::Hardened)
}

} // verus!
