//! Staging a change of ClaudeCode's user settings as a recoverable effect.
//!
//! A protected record keeps what the user had. It is an envelope: a version, whether the file was
//! there, the length of the change, the change and the file as it was. A restoration works from the
//! record alone; what the user wrote meanwhile beside the changed fields stays.

use vstd::prelude::*;
use crate::agents::claude_config::{
    changed_bytes, changes_view, claude_change_bytes_are_applied, is_applied, is_change,
    native_root, rebase_claude_change_bytes, rebased_bytes, render_claude_change_bytes,
    restore_claude_change_bytes, restored_bytes, AgentConfigChangeV1,
};
use crate::agents::discovery::AgentKindV1;
use crate::digest::{digest_of, CanonicalDigest};
use crate::json::{object_view, parse_json, parsed_json, Json, JsonView};

verus! {

/// The most bytes that a record may have.
pub const RECORD_LIMIT: usize = 1_048_576;

#[derive(Clone, Copy, Debug, PartialEq, Eq, Structural)]
pub enum PortErrorCode {
    Conflict,
    NotFound,
    InvalidData,
    Corrupt,
}

/// Why an effect could not be staged: a code, and the place in the work.
#[derive(Clone, Copy, Debug)]
pub struct PortError {
    pub code: PortErrorCode,
    pub context: &'static str,
}

impl PortError {
    /// The place with the agent's name before it.
    pub fn full_context(&self) -> (r: String)
        ensures
            r@ == AgentKindV1::ClaudeCode.command() + "."@ + self.context@,
    {
        let mut text = AgentKindV1::ClaudeCode.command_text();
        text.append(".");
        text.append(self.context);
        text
    }
}

pub open spec fn is_error(error: PortError, code: PortErrorCode, context: Seq<char>) -> bool {
    error.code == code && error.context@ == context
}

/// The number that four bytes denote, the least significant first.
pub open spec fn length_of(bytes: Seq<u8>) -> int {
    bytes[0] + 256 * bytes[1] + 65536 * bytes[2] + 16777216 * bytes[3]
}

pub open spec fn length_bytes(length: int) -> Seq<u8> {
    seq![
        (length % 256) as u8,
        (length / 256 % 256) as u8,
        (length / 65536 % 256) as u8,
        (length / 16777216 % 256) as u8,
    ]
}

proof fn lemma_length(length: int)
    requires
        0 <= length < 4294967296,
    ensures
        length_of(length_bytes(length)) == length,
{
    let a = length % 256;
    let b = length / 256 % 256;
    let c = length / 65536 % 256;
    let d = length / 16777216 % 256;
    assert(length / 256 / 256 == length / 65536);
    assert(length / 65536 / 256 == length / 16777216);
    assert(length / 16777216 < 256);
}

/// A record of a change.
pub open spec fn envelope(existed: bool, change: Seq<u8>, original: Seq<u8>) -> Seq<u8> {
    seq![
        1u8,
        if existed {
            1u8
        } else {
            0u8
        },
    ] + length_bytes(change.len() as int) + change + original
}

/// Frames a change and the file as it was.
pub fn encode_record(existed: bool, change_bytes: &[u8], original: &[u8]) -> (r: Result<
    Vec<u8>,
    PortError,
>)
    ensures
        if change_bytes@.len() + original@.len() + 6 > RECORD_LIMIT {
            r matches Err(error) && is_error(
                error,
                PortErrorCode::InvalidData,
                "restore.bound"@,
            )
        } else {
            r matches Ok(record) && record@ == envelope(existed, change_bytes@, original@)
        },
{
    if change_bytes.len() > RECORD_LIMIT || original.len() > RECORD_LIMIT || change_bytes.len()
        + original.len() + 6 > RECORD_LIMIT {
        return Err(
            PortError { code: PortErrorCode::InvalidData, context: "restore.bound" },
        );
    }
    let length = change_bytes.len();
    let mut record: Vec<u8> = Vec::new();
    record.push(1);
    record.push(
        if existed {
            1u8
        } else {
            0u8
        },
    );
    record.push((length % 256) as u8);
    record.push((length / 256 % 256) as u8);
    record.push((length / 65536 % 256) as u8);
    record.push((length / 16777216 % 256) as u8);
    record.extend_from_slice(change_bytes);
    record.extend_from_slice(original);
    assert(record@ =~= envelope(existed, change_bytes@, original@));
    Ok(record)
}

/// What a record holds.
#[derive(Debug)]
pub struct RecordParts {
    pub existed: bool,
    pub change: Vec<u8>,
    pub original: Vec<u8>,
}

pub open spec fn has_header(record: Seq<u8>) -> bool {
    8 <= record.len() <= RECORD_LIMIT && record[0] == 1 && record[1] <= 1
}

pub open spec fn change_end(record: Seq<u8>) -> int {
    6 + length_of(record.subrange(2, 6))
}

/// Takes a record apart. The file as it was is never empty.
pub fn decode_record(record: &[u8]) -> (r: Result<RecordParts, PortError>)
    ensures
        if !has_header(record@) {
            r matches Err(error) && is_error(error, PortErrorCode::Corrupt, "restore.schema"@)
        } else if change_end(record@) >= record@.len() {
            r matches Err(error) && is_error(error, PortErrorCode::Corrupt, "restore.length"@)
        } else {
            r matches Ok(parts) && parts.existed == (record@[1] == 1) && parts.change@
                == record@.subrange(6, change_end(record@)) && parts.original@ == record@.skip(
                change_end(record@),
            )
        },
{
    if record.len() < 8 || record.len() > RECORD_LIMIT || record[0] != 1 || record[1] > 1 {
        return Err(PortError { code: PortErrorCode::Corrupt, context: "restore.schema" });
    }
    proof {
        let header = record@.subrange(2, 6);
        assert(header[0] == record@[2] && header[1] == record@[3] && header[2] == record@[4]
            && header[3] == record@[5]);
    }
    let length: u64 = record[2] as u64 + 256 * (record[3] as u64) + 65536 * (record[4] as u64)
        + 16777216 * (record[5] as u64);
    let end: u64 = 6 + length;
    if end >= record.len() as u64 {
        return Err(PortError { code: PortErrorCode::Corrupt, context: "restore.length" });
    }
    let end = end as usize;
    let mut change: Vec<u8> = Vec::new();
    change.extend_from_slice(vstd::slice::slice_subrange(record, 6, end));
    let mut original: Vec<u8> = Vec::new();
    original.extend_from_slice(vstd::slice::slice_subrange(record, end, record.len()));
    proof {
        assert(change@ =~= record@.subrange(6, end as int));
        assert(original@ =~= record@.skip(end as int));
    }
    Ok(RecordParts { existed: record[1] == 1, change, original })
}

/// A record gives back what it was made of.
pub proof fn records_give_back_what_they_hold(existed: bool, change: Seq<u8>, original: Seq<u8>)
    requires
        change.len() + original.len() + 6 <= RECORD_LIMIT,
        original.len() > 0,
        change.len() + original.len() >= 2,
    ensures
        ({
            let record = envelope(existed, change, original);
            &&& has_header(record)
            &&& change_end(record) < record.len()
            &&& (record[1] == 1) == existed
            &&& record.subrange(6, change_end(record)) == change
            &&& record.skip(change_end(record)) == original
        }),
{
    let record = envelope(existed, change, original);
    let length = change.len() as int;
    lemma_length(length);
    assert(record.subrange(2, 6) =~= length_bytes(length));
    assert(change_end(record) == 6 + length);
    assert(record.subrange(6, change_end(record)) =~= change);
    assert(record.skip(change_end(record)) =~= original);
}

/// What a change of a settings file is to write, and the record that undoes it.
#[derive(Debug)]
pub struct StagedConfiguration {
    pub record: Vec<u8>,
    pub rendered: Vec<u8>,
}

/// Makes the record of a change that was rendered.
pub open spec fn is_saved(
    r: Result<StagedConfiguration, PortError>,
    existed: bool,
    original: Seq<u8>,
    change_bytes: Option<Seq<u8>>,
    rendered: Seq<u8>,
) -> bool {
    match change_bytes {
        None => r matches Err(error) && is_error(
            error,
            PortErrorCode::InvalidData,
            "change.encode"@,
        ),
        Some(change) => if change.len() + original.len() + 6 > RECORD_LIMIT {
            r matches Err(error) && is_error(
                error,
                PortErrorCode::InvalidData,
                "restore.bound"@,
            )
        } else {
            r matches Ok(staged) && staged.record@ == envelope(existed, change, original)
                && staged.rendered@ == rendered
        },
    }
}

pub open spec fn maybe_bytes(bytes: Option<&[u8]>) -> Option<Seq<u8>> {
    match bytes {
        Some(bytes) => Some(bytes@),
        None => None,
    }
}

/// Makes the record of a change that was rendered. `change_bytes` is the change as a document.
pub fn save_claude_configuration(
    existed: bool,
    original: &[u8],
    change_bytes: Option<&[u8]>,
    rendered: Vec<u8>,
) -> (r: Result<StagedConfiguration, PortError>)
    ensures
        is_saved(r, existed, original@, maybe_bytes(change_bytes), rendered@),
{
    match change_bytes {
        None => Err(
            PortError { code: PortErrorCode::InvalidData, context: "change.encode" },
        ),
        Some(change_bytes) => match encode_record(existed, change_bytes, original) {
            Ok(record) => Ok(StagedConfiguration { record, rendered }),
            Err(error) => Err(error),
        },
    }
}

/// The bytes that a file counts as: an absent one is an empty object.
pub open spec fn bytes_or_empty_object(current: Option<Seq<u8>>) -> Seq<u8> {
    match current {
        Some(bytes) => bytes,
        None => vstd::utf8::encode_utf8("{}"@),
    }
}

pub open spec fn bytes_or_none(current: Option<Seq<u8>>) -> Seq<u8> {
    match current {
        Some(bytes) => bytes,
        None => Seq::empty(),
    }
}

/// Stages a change. The file must still be the one that was previewed.
pub fn stage_claude_configuration(
    current: Option<&[u8]>,
    strict: bool,
    expected_content: &CanonicalDigest,
    change: &AgentConfigChangeV1,
    change_bytes: Option<&[u8]>,
    verb: &str,
) -> (r: Result<StagedConfiguration, PortError>)
    ensures
        if digest_of(bytes_or_none(maybe_bytes(current))) != expected_content@ {
            r matches Err(error) && is_error(error, PortErrorCode::Conflict, "preview.changed"@)
        } else {
            match changed_bytes(
                bytes_or_empty_object(maybe_bytes(current)),
                strict || current is None,
                *change,
                verb@,
            ) {
                Err(_) => r matches Err(error) && is_error(
                    error,
                    PortErrorCode::Conflict,
                    "native.render"@,
                ),
                Ok(rendered) => is_saved(
                    r,
                    current is Some,
                    bytes_or_empty_object(maybe_bytes(current)),
                    maybe_bytes(change_bytes),
                    rendered,
                ),
            }
        },
{
    let none: Vec<u8> = Vec::new();
    assert(none@ =~= Seq::<u8>::empty());
    let bytes = match current {
        Some(bytes) => bytes,
        None => none.as_slice(),
    };
    if !CanonicalDigest::of_bytes(bytes).equals(expected_content) {
        return Err(PortError { code: PortErrorCode::Conflict, context: "preview.changed" });
    }
    let original = match current {
        Some(bytes) => bytes,
        None => "{}".as_bytes(),
    };
    let rendered = match render_claude_change_bytes(
        original,
        strict || current.is_none(),
        change,
        verb,
    ) {
        Ok(rendered) => rendered,
        Err(_) => {
            return Err(
                PortError { code: PortErrorCode::Conflict, context: "native.render" },
            );
        },
    };
    save_claude_configuration(current.is_some(), original, change_bytes, rendered)
}

/// An effect on one file may follow only an effect of another operation on the same file.
pub fn check_binding(same_operation: bool, same_target: bool, restores: bool) -> (r: Result<
    (),
    PortError,
>)
    ensures
        if same_operation || !same_target {
            r matches Err(error) && is_error(
                error,
                PortErrorCode::InvalidData,
                if restores {
                    "restore.binding"@
                } else {
                    "reconfigure.binding"@
                },
            )
        } else {
            r is Ok
        },
{
    if same_operation || !same_target {
        return Err(
            PortError {
                code: PortErrorCode::InvalidData,
                context: if restores {
                    "restore.binding"
                } else {
                    "reconfigure.binding"
                },
            },
        );
    }
    Ok(())
}

/// A change in place of an earlier one, before it is recorded.
#[derive(Debug)]
pub struct RebasedConfiguration {
    pub existed: bool,
    pub base: Vec<u8>,
    pub change: AgentConfigChangeV1,
    pub rendered: Vec<u8>,
}

/// A recorded change: its parts, whether the recorded file is a strict document, and the change as
/// it was read, where it could be.
#[derive(Debug)]
pub struct RecordedChange {
    pub existed: bool,
    pub original: Vec<u8>,
    pub original_strict: bool,
    pub change: AgentConfigChangeV1,
}

/// The reading of a record's change must succeed and be a valid change.
pub fn accept_record(parts: RecordParts, change: Option<AgentConfigChangeV1>, original_strict: bool) -> (r:
    Result<RecordedChange, PortError>)
    ensures
        match change {
            Some(change) => if change.is_valid {
                r matches Ok(recorded) && recorded.existed == parts.existed && recorded.original
                    == parts.original && recorded.change == change && recorded.original_strict
                    == original_strict
            } else {
                r matches Err(error) && is_error(
                    error,
                    PortErrorCode::Corrupt,
                    "restore.change"@,
                )
            },
            None => r matches Err(error) && is_error(
                error,
                PortErrorCode::Corrupt,
                "restore.change"@,
            ),
        },
{
    match change {
        Some(change) => {
            if change.is_valid {
                return Ok(
                    RecordedChange {
                        existed: parts.existed,
                        original: parts.original,
                        original_strict,
                        change,
                    },
                );
            }
        },
        None => {},
    }
    Err(PortError { code: PortErrorCode::Corrupt, context: "restore.change" })
}

/// Whether the recorded change still stands; a file that is gone holds none.
pub fn claude_native_configuration_is_applied(
    current: Option<&[u8]>,
    strict: bool,
    recorded: &RecordedChange,
    verb: &str,
) -> (r: Result<bool, PortError>)
    ensures
        match current {
            None => r matches Ok(applied) && !applied,
            Some(bytes) => match (native_root(bytes@, strict), is_change(recorded.change)) {
                (Ok(root), true) => match is_applied(
                    root,
                    changes_view(recorded.change.fields@),
                    verb@,
                ) {
                    Ok(stands) => r matches Ok(applied) && applied == stands,
                    Err(_) => r matches Err(error) && is_error(
                        error,
                        PortErrorCode::Conflict,
                        "status.fields"@,
                    ),
                },
                _ => r matches Err(error) && is_error(
                    error,
                    PortErrorCode::Conflict,
                    "status.fields"@,
                ),
            },
        },
{
    match current {
        None => Ok(false),
        Some(bytes) => match claude_change_bytes_are_applied(
            bytes,
            strict,
            &recorded.change,
            verb,
        ) {
            Ok(applied) => Ok(applied),
            Err(_) => Err(
                PortError { code: PortErrorCode::Conflict, context: "status.fields" },
            ),
        },
    }
}

/// The file that the user had under a recorded change.
pub open spec fn base_of(
    current: Seq<u8>,
    strict: bool,
    recorded: RecordedChange,
    verb: Seq<char>,
) -> Option<Seq<u8>> {
    match restored_bytes(
        current,
        strict,
        recorded.original@,
        recorded.original_strict,
        recorded.change,
        verb,
    ) {
        Ok(bytes) => Some(bytes),
        Err(_) => None,
    }
}

/// The file that a change is put in place of another in must be there, and be the one that was
/// previewed. This is tested before a record is looked for.
pub fn check_reconfigured<'a>(current: Option<&'a [u8]>, expected_content: &CanonicalDigest) -> (r:
    Result<&'a [u8], PortError>)
    ensures
        match current {
            None => r matches Err(error) && is_error(
                error,
                PortErrorCode::Conflict,
                "reconfigure.removed"@,
            ),
            Some(bytes) => if digest_of(bytes@) != expected_content@ {
                r matches Err(error) && is_error(
                    error,
                    PortErrorCode::Conflict,
                    "reconfigure.changed"@,
                )
            } else {
                r matches Ok(same) && same@ == bytes@
            },
        },
{
    let bytes = match current {
        Some(bytes) => bytes,
        None => {
            return Err(
                PortError { code: PortErrorCode::Conflict, context: "reconfigure.removed" },
            );
        },
    };
    if !CanonicalDigest::of_bytes(bytes).equals(expected_content) {
        return Err(
            PortError { code: PortErrorCode::Conflict, context: "reconfigure.changed" },
        );
    }
    Ok(bytes)
}

/// Puts a change in the place of a recorded one. What the user had stays what a restoration gives
/// back; a helper that nobody recorded is never adopted.
pub fn stage_claude_reconfiguration(
    current: Option<&[u8]>,
    strict: bool,
    expected_content: &CanonicalDigest,
    recorded: &RecordedChange,
    change: &AgentConfigChangeV1,
    verb: &str,
) -> (r: Result<RebasedConfiguration, PortError>)
    ensures
        match current {
            None => r matches Err(error) && is_error(
                error,
                PortErrorCode::Conflict,
                "reconfigure.removed"@,
            ),
            Some(bytes) => if digest_of(bytes@) != expected_content@ {
                r matches Err(error) && is_error(
                    error,
                    PortErrorCode::Conflict,
                    "reconfigure.changed"@,
                )
            } else {
                match base_of(bytes@, strict, *recorded, verb@) {
                    None => r matches Err(error) && is_error(
                        error,
                        PortErrorCode::Conflict,
                        "reconfigure.fields"@,
                    ),
                    Some(base) => match rebased_bytes(
                        bytes@,
                        strict,
                        base,
                        true,
                        recorded.change,
                        *change,
                        verb@,
                    ) {
                        Err(_) => r matches Err(error) && is_error(
                            error,
                            PortErrorCode::Conflict,
                            "reconfigure.render"@,
                        ),
                        Ok((rendered, fields)) => r matches Ok(rebased) && rebased.existed
                            == recorded.existed && rebased.base@ == base && rebased.rendered@
                            == rendered && rebased.change.is_valid && changes_view(
                            rebased.change.fields@,
                        ) == fields,
                    },
                }
            },
        },
{
    let bytes = match check_reconfigured(current, expected_content) {
        Ok(bytes) => bytes,
        Err(error) => return Err(error),
    };
    let base = match restore_claude_change_bytes(
        bytes,
        strict,
        recorded.original.as_slice(),
        recorded.original_strict,
        &recorded.change,
        verb,
    ) {
        Ok(base) => base,
        Err(_) => {
            return Err(
                PortError { code: PortErrorCode::Conflict, context: "reconfigure.fields" },
            );
        },
    };
    match rebase_claude_change_bytes(
        bytes,
        strict,
        base.as_slice(),
        true,
        &recorded.change,
        change,
        verb,
    ) {
        Ok((rendered, change)) => Ok(
            RebasedConfiguration { existed: recorded.existed, base, change, rendered },
        ),
        Err(_) => Err(
            PortError { code: PortErrorCode::Conflict, context: "reconfigure.render" },
        ),
    }
}

pub open spec fn is_empty_object(bytes: Seq<u8>) -> bool {
    match parsed_json(bytes) {
        Some(JsonView::Object(members)) => members =~= Map::empty(),
        _ => false,
    }
}

fn empty_object(bytes: &[u8]) -> (r: bool)
    ensures
        r == is_empty_object(bytes@),
{
    match parse_json(bytes) {
        Some(Json::Object(members)) => {
            if members.len() == 0 {
                assert(object_view(members@) =~= Map::empty());
                true
            } else {
                proof {
                    let last = members@.last();
                    assert(object_view(members@).contains_key(last.0@));
                }
                false
            }
        },
        _ => false,
    }
}

/// What a restoration writes: the file that the user had under the change, or no file where there
/// was none and nothing else is in it.
pub fn stage_claude_restoration(
    current: Option<&[u8]>,
    strict: bool,
    recorded: &RecordedChange,
    verb: &str,
) -> (r: Result<Option<Vec<u8>>, PortError>)
    ensures
        match current {
            None => if recorded.existed {
                r matches Err(error) && is_error(
                    error,
                    PortErrorCode::Conflict,
                    "restore.removed"@,
                )
            } else {
                r matches Ok(None)
            },
            Some(bytes) => match base_of(bytes@, strict, *recorded, verb@) {
                None => r matches Err(error) && is_error(
                    error,
                    PortErrorCode::Conflict,
                    "restore.fields"@,
                ),
                Some(base) => if !recorded.existed && is_empty_object(base) {
                    r matches Ok(None)
                } else {
                    r matches Ok(Some(restored)) && restored@ == base
                },
            },
        },
{
    let bytes = match current {
        Some(bytes) => bytes,
        None => {
            if recorded.existed {
                return Err(
                    PortError { code: PortErrorCode::Conflict, context: "restore.removed" },
                );
            }
            return Ok(None);
        },
    };
    let restored = match restore_claude_change_bytes(
        bytes,
        strict,
        recorded.original.as_slice(),
        recorded.original_strict,
        &recorded.change,
        verb,
    ) {
        Ok(restored) => restored,
        Err(_) => {
            return Err(
                PortError { code: PortErrorCode::Conflict, context: "restore.fields" },
            );
        },
    };
    if !recorded.existed && empty_object(restored.as_slice()) {
        return Ok(None);
    }
    Ok(Some(restored))
}

} // verus!
