//! What a recorded effect keeps, and when it may be staged, replaced or undone.

use vstd::prelude::*;
use crate::agents::claude_config::{
    bytes_view, claude_change_bytes_are_applied, restore_claude_change_bytes, AgentConfigChangeV1,
};
use crate::agents::claude_effects::{
    accept_record, change_end, check_binding, claude_native_configuration_is_applied,
    decode_record, encode_record, envelope, records_give_back_what_they_hold,
    stage_claude_configuration, stage_claude_reconfiguration, stage_claude_restoration, PortError,
    PortErrorCode, RebasedConfiguration, RecordParts, RecordedChange, StagedConfiguration,
};
use crate::agents::filesystem::AgentFilesystemScanError;
use crate::digest::{digest_of, CanonicalDigest};
use crate::json::{parsed_json, JsonView};

verus! {

/// What was recorded is read back: whether the file was there, the change, and the file as it was.
pub proof fn recorded_parts_are_read_back(
    existed: bool,
    change: &[u8],
    original: &[u8],
    record: Result<Vec<u8>, PortError>,
    bytes: &[u8],
    r: Result<RecordParts, PortError>,
)
    requires
        call_ensures(encode_record, (existed, change, original), record),
        record matches Ok(own) && own@ == bytes@,
        call_ensures(decode_record, (bytes,), r),
        original@.len() > 0,
        change@.len() + original@.len() >= 2,
    ensures
        r matches Ok(parts) && parts.existed == existed && parts.change@ == change@
            && parts.original@ == original@,
{
    records_give_back_what_they_hold(existed, change@, original@);
}

/// A record is made of whatever fits: with its six bytes of head, at most a mebibyte.
pub proof fn records_fit_their_bound(
    existed: bool,
    change: &[u8],
    original: &[u8],
    r: Result<Vec<u8>, PortError>,
)
    requires
        call_ensures(encode_record, (existed, change, original), r),
    ensures
        r is Ok <==> change@.len() + original@.len() + 6 <= 1_048_576,
        r matches Ok(record) ==> record@.len() == change@.len() + original@.len() + 6,
        r matches Err(error) ==> error.code == PortErrorCode::InvalidData,
{
}

/// A record of another version, of no sense or cut short is corrupt.
pub proof fn foreign_records_are_corrupt(record: &[u8], r: Result<RecordParts, PortError>)
    requires
        call_ensures(decode_record, (record,), r),
    ensures
        record@.len() < 8 || record@.len() > 1_048_576 ==> r is Err,
        record@.len() >= 8 && (record@[0] != 1 || record@[1] > 1) ==> r is Err,
        r matches Err(error) ==> error.code == PortErrorCode::Corrupt,
        r matches Ok(parts) ==> parts.original@.len() > 0 && parts.change@.len()
            + parts.original@.len() + 6 == record@.len() && parts.existed == (record@[1] == 1)
            && parts.change@ + parts.original@ == record@.skip(6),
{
    if let Ok(parts) = r {
        let end = change_end(record@);
        assert(record@.skip(6) =~= record@.subrange(6, end) + record@.skip(end));
    }
}

/// A change is staged only on the file that was previewed: the digest of what is there, or of
/// nothing where no file is, is the expected one.
pub proof fn only_previewed_files_are_changed(
    current: Option<&[u8]>,
    strict: bool,
    expected: &CanonicalDigest,
    change: &AgentConfigChangeV1,
    change_bytes: Option<&[u8]>,
    verb: &str,
    r: Result<StagedConfiguration, PortError>,
)
    requires
        call_ensures(
            stage_claude_configuration,
            (current, strict, expected, change, change_bytes, verb),
            r,
        ),
    ensures
        r is Ok ==> change_bytes is Some && match current {
            Some(bytes) => digest_of(bytes@) == expected@,
            None => digest_of(Seq::empty()) == expected@,
        },
        r matches Ok(staged) ==> staged.record@.len() >= 6 && staged.record@[0] == 1 && (
        staged.record@[1] == 1 <==> current is Some) && (current matches Some(bytes)
            ==> staged.record@.len() >= bytes@.len() && staged.record@.skip(
            staged.record@.len() - bytes@.len(),
        ) == bytes@),
{
    if let Ok(staged) = r {
        let change = change_bytes->0@;
        if let Some(bytes) = current {
            let record = staged.record@;
            assert(record == envelope(true, change, bytes@));
            assert(record.skip(record.len() - bytes@.len()) =~= bytes@);
        }
    }
}

/// An effect follows another only on the same file, and only one of another operation.
pub proof fn effects_follow_on_the_same_file(
    same_operation: bool,
    same_target: bool,
    restores: bool,
    r: Result<(), PortError>,
)
    requires
        call_ensures(check_binding, (same_operation, same_target, restores), r),
    ensures
        r is Ok <==> !same_operation && same_target,
        r matches Err(error) ==> error.code == PortErrorCode::InvalidData && error.context@ == (
        if restores {
            "restore.binding"@
        } else {
            "reconfigure.binding"@
        }),
{
}

/// A record counts only with a change that could be read and that its owner accepts, as it was
/// recorded.
pub proof fn records_count_with_their_change(
    parts: RecordParts,
    change: Option<AgentConfigChangeV1>,
    original_strict: bool,
    r: Result<RecordedChange, PortError>,
)
    requires
        call_ensures(accept_record, (parts, change, original_strict), r),
    ensures
        r is Ok <==> (change matches Some(change) && change.is_valid),
        r matches Ok(recorded) ==> recorded.existed == parts.existed && recorded.original@
            == parts.original@ && recorded.change == change->0 && recorded.original_strict
            == original_strict,
{
}

/// A file that is gone holds no change; one that is there holds it where the change stands in it.
pub proof fn changes_stand_only_in_files(
    current: Option<&[u8]>,
    strict: bool,
    recorded: &RecordedChange,
    verb: &str,
    r: Result<bool, PortError>,
    stands: Result<bool, AgentFilesystemScanError>,
)
    requires
        call_ensures(
            claude_native_configuration_is_applied,
            (current, strict, recorded, verb),
            r,
        ),
        current matches Some(bytes) ==> call_ensures(
            claude_change_bytes_are_applied,
            (bytes, strict, &recorded.change, verb),
            stands,
        ),
    ensures
        current is None ==> (r matches Ok(false)),
        current is Some ==> (r is Ok <==> stands is Ok) && (r matches Ok(applied) ==> stands
            == Ok::<bool, AgentFilesystemScanError>(applied)),
        r matches Err(error) ==> error.code == PortErrorCode::Conflict,
{
}

/// A change is put in the place of another only in the file that was previewed, which must be there.
pub proof fn only_previewed_files_are_reconfigured(
    current: Option<&[u8]>,
    strict: bool,
    expected: &CanonicalDigest,
    recorded: &RecordedChange,
    change: &AgentConfigChangeV1,
    verb: &str,
    r: Result<RebasedConfiguration, PortError>,
    base: Result<Vec<u8>, AgentFilesystemScanError>,
)
    requires
        call_ensures(
            stage_claude_reconfiguration,
            (current, strict, expected, recorded, change, verb),
            r,
        ),
        current matches Some(bytes) ==> exists|original: &[u8]| #[trigger]
            original@ == recorded.original@ && call_ensures(
                restore_claude_change_bytes,
                (bytes, strict, original, recorded.original_strict, &recorded.change, verb),
                base,
            ),
    ensures
        current is None ==> r is Err,
        r matches Ok(rebased) ==> (current matches Some(bytes) && digest_of(bytes@) == expected@)
            && rebased.existed == recorded.existed && rebased.change.is_valid && (
        base matches Ok(own) && rebased.base@ == own@),
        r matches Err(error) ==> error.code == PortErrorCode::Conflict,
{
    if let Some(bytes) = current {
        let original = choose|original: &[u8]| #[trigger]
            original@ == recorded.original@ && call_ensures(
                restore_claude_change_bytes,
                (bytes, strict, original, recorded.original_strict, &recorded.change, verb),
                base,
            );
        assert(bytes_view(base) is Ok <==> base is Ok);
    }
}

/// An undone change leaves what the user had: the restored file, or none where there was none and
/// nothing else is in it. A file that is gone although there was one is a conflict.
pub proof fn restorations_leave_what_the_user_had(
    current: Option<&[u8]>,
    strict: bool,
    recorded: &RecordedChange,
    verb: &str,
    r: Result<Option<Vec<u8>>, PortError>,
    original: &[u8],
    base: Result<Vec<u8>, AgentFilesystemScanError>,
)
    requires
        call_ensures(stage_claude_restoration, (current, strict, recorded, verb), r),
        original@ == recorded.original@,
        current matches Some(bytes) ==> call_ensures(
            restore_claude_change_bytes,
            (bytes, strict, original, recorded.original_strict, &recorded.change, verb),
            base,
        ),
    ensures
        current is None ==> (r is Ok <==> !recorded.existed),
        current is None && !recorded.existed ==> (r matches Ok(None)),
        current is Some ==> (r is Ok <==> base is Ok),
        r matches Ok(Some(restored)) ==> (base matches Ok(own) && restored@ == own@),
        current is Some && (r matches Ok(None)) ==> !recorded.existed && (base matches Ok(own) && (
        parsed_json(own@) matches Some(JsonView::Object(members)) && members == Map::<
            Seq<char>,
            JsonView,
        >::empty())),
        current is Some && recorded.existed && base is Ok ==> (r matches Ok(Some(_))),
{
    if current is Some {
        assert(bytes_view(base) is Ok <==> base is Ok);
    }
}

} // verus!
