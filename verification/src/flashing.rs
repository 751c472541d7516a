use vstd::prelude::*;
use crate::error::{ErrorCode, Failure, OperationError, Result, fails_as, outcome_is};
use crate::manifest::{ChipFamily, PackageKind, chip_name};
use crate::ota::{
    OtaSwitch, PartitionEntry, PartitionView, UpdateLayout, build_otadata_sector, entries_view,
    parse_partition_table, spec_otadata_sector, spec_parse_partition_table,
};
use crate::package::FirmwareSource;

verus! {

/// Bytes to write at a flash address.
#[derive(Debug, Clone, PartialEq, Eq)]
pub struct OwnedFlashSegment {
    pub address: u32,
    pub data: Vec<u8>,
}

/// The package must be of the expected kind.
pub fn require_kind(actual: PackageKind, expected: PackageKind, message: &str) -> (r: Result<()>)
    ensures
        (r is Ok) == (actual == expected),
        r matches Err(e) ==> fails_as(e, (ErrorCode::PackageInvalid, message@)) && e.detail is None,
{
    if actual != expected {
        return Err(OperationError::new(ErrorCode::PackageInvalid, message));
    }
    Ok(())
}

/// The detected chip must be one the package targets; otherwise the error
/// names the detected chip.
pub fn check_device_chip(target_chips: &[ChipFamily], chip: ChipFamily, message: &str) -> (r: Result<()>)
    ensures
        (r is Ok) == target_chips@.contains(chip),
        r matches Err(e) ==> fails_as(e, (ErrorCode::ChipMismatch, message@)) && (e.detail
            matches Some(d) && d@ == "обнаружен "@ + chip_name(chip)),
{
    if !crate::image::contains_chip(target_chips, chip) {
        let mut detail = String::from_str("обнаружен ");
        detail.append(chip.as_str());
        return Err(OperationError::new(ErrorCode::ChipMismatch, message).with_detail(detail));
    }
    Ok(())
}

/// The marker a production run waits for: the operator's for a PlatformIO
/// folder, the manifest's otherwise.
pub open spec fn spec_select_success_marker(source: FirmwareSource, manifest_marker: Seq<char>, requested_marker: Seq<char>) -> Seq<char> {
    match source {
        FirmwareSource::Platformio => requested_marker,
        FirmwareSource::Standalone | FirmwareSource::LegacyManifest => manifest_marker,
    }
}

pub fn select_success_marker<'a>(source: FirmwareSource, manifest_marker: &'a str, requested_marker: &'a str) -> (m: &'a str)
    ensures
        m@ == spec_select_success_marker(source, manifest_marker@, requested_marker@),
{
    match source {
        FirmwareSource::Platformio => requested_marker,
        FirmwareSource::Standalone | FirmwareSource::LegacyManifest => manifest_marker,
    }
}

/// Where an OTA switch writes its `otadata` sector.
pub open spec fn metadata_address(ota_data: PartitionView, switch: OtaSwitch) -> int {
    ota_data.offset + switch.metadata_sector * 0x1000
}

/// The writes of an update: the application into the target partition, and
/// for an OTA layout the switch sector afterwards. An in-place update needs
/// the user's confirmation.
pub fn plan_update_segments(layout: UpdateLayout, application: Vec<u8>, confirm_in_place: bool) -> (r: Result<Vec<OwnedFlashSegment>>)
    requires
        layout matches UpdateLayout::Ota { ota_data, switch, .. } ==> metadata_address(ota_data@, switch) <= u32::MAX,
    ensures
        match layout {
            UpdateLayout::InPlace { target } => if confirm_in_place {
                r matches Ok(v) && v@.len() == 1 && v@[0].address == target.offset && v@[0].data@ == application@
            } else {
                r matches Err(e) && fails_as(e, (ErrorCode::InPlaceConfirmationRequired, "На устройстве нет резервного OTA-слота"@))
                    && (e.detail matches Some(d) && d@ == "Обновление будет выполнено in-place в раздел "@ + target.label@)
            },
            UpdateLayout::Ota { target, ota_data, switch } => r matches Ok(v) && v@.len() == 2
                && v@[0].address == target.offset && v@[0].data@ == application@
                && v@[1].address == metadata_address(ota_data@, switch)
                && v@[1].data@ == spec_otadata_sector(switch),
        },
{
    match layout {
        UpdateLayout::InPlace { target } => {
            if !confirm_in_place {
                let mut detail = String::from_str("Обновление будет выполнено in-place в раздел ");
                detail.append(target.label.as_str());
                return Err(
                    OperationError::new(
                        ErrorCode::InPlaceConfirmationRequired,
                        "На устройстве нет резервного OTA-слота",
                    ).with_detail(detail),
                );
            }
            let mut v: Vec<OwnedFlashSegment> = Vec::new();
            v.push(OwnedFlashSegment { address: target.offset, data: application });
            Ok(v)
        },
        UpdateLayout::Ota { target, ota_data, switch } => {
            let address = ota_data.offset + (switch.metadata_sector as u32) * 0x1000;
            let mut v: Vec<OwnedFlashSegment> = Vec::new();
            v.push(OwnedFlashSegment { address: target.offset, data: application });
            v.push(OwnedFlashSegment { address, data: build_otadata_sector(&switch) });
            Ok(v)
        },
    }
}

// ---------------------------------------------------------------------------
// Finding the partition table on a board
// ---------------------------------------------------------------------------

/// The offsets tried for the partition table: the declared one, or every
/// 4 KiB step from 0x8000 to 0x1F000.
pub open spec fn candidate_offsets(declared: Option<u32>) -> Seq<u32> {
    match declared {
        Some(offset) => seq![offset],
        None => Seq::new(24, |i: int| (0x8000 + i * 0x1000) as u32),
    }
}

/// Some entry holds an application.
pub open spec fn has_application(es: Seq<PartitionView>) -> bool {
    exists|i: int| 0 <= i < es.len() && (#[trigger] es[i].is_factory_app() || es[i].is_ota_app())
}

/// What one candidate read gives: a table with applications, or the error
/// to remember.
pub enum DiscoveryStep {
    Found(Vec<PartitionEntry>),
    Rejected(OperationError),
}

/// Judges the bytes read at one candidate offset.
pub fn discovery_step(bytes: &[u8]) -> (s: DiscoveryStep)
    ensures
        match s {
            DiscoveryStep::Found(es) => spec_parse_partition_table(bytes@) == Ok::<Seq<PartitionView>, Failure>(entries_view(es@))
                && has_application(entries_view(es@)),
            DiscoveryStep::Rejected(e) => match spec_parse_partition_table(bytes@) {
                Ok(es) => !has_application(es) && fails_as(
                    e,
                    (ErrorCode::PartitionInvalid, "Partition table не содержит application-разделов"@),
                ),
                Err(f) => fails_as(e, f),
            },
        },
{
    match parse_partition_table(bytes) {
        Ok(entries) => {
            let ghost es = entries_view(entries@);
            let mut i: usize = 0;
            while i < entries.len()
                invariant
                    es == entries_view(entries@),
                    spec_parse_partition_table(bytes@) == Ok::<Seq<PartitionView>, Failure>(es),
                    i <= es.len(),
                    forall|k: int| 0 <= k < i ==> !(#[trigger] es[k].is_factory_app() || es[k].is_ota_app()),
                decreases es.len() - i,
            {
                assert(es[i as int] == entries@[i as int]@);
                if entries[i].is_factory_app() || entries[i].is_ota_app() {
                    return DiscoveryStep::Found(entries);
                }
                i = i + 1;
            }
            DiscoveryStep::Rejected(
                OperationError::new(
                    ErrorCode::PartitionInvalid,
                    "Partition table не содержит application-разделов",
                ),
            )
        },
        Err(e) => DiscoveryStep::Rejected(e),
    }
}

/// The bytes hold a partition table with an application partition.
pub open spec fn holds_application_table(bytes: Seq<u8>) -> bool {
    spec_parse_partition_table(bytes) matches Ok(es) && has_application(es)
}

/// Why bytes read at a candidate offset were passed over: the parse failure,
/// or a table without applications.
pub open spec fn rejection(bytes: Seq<u8>) -> Failure {
    match spec_parse_partition_table(bytes) {
        Ok(_) => (ErrorCode::PartitionInvalid, "Partition table не содержит application-разделов"@),
        Err(f) => f,
    }
}

/// The text of a failure as an error shows it: its code, a colon and its
/// message.
pub open spec fn failure_text(f: Failure) -> Seq<char> {
    crate::error::error_code_name(f.0) + ": "@ + f.1
}

/// One read of `address` gave bytes without a partition table that holds an
/// application.
pub open spec fn read_rejected<F: FnMut(u32) -> Result<Vec<u8>>>(read: F, address: u32) -> bool {
    exists|b: Vec<u8>|
        #[trigger] call_ensures(read, (address,), Ok::<Vec<u8>, OperationError>(b))
            && !holds_application_table(b@)
}

/// Every candidate offset below `address` was read and passed over.
#[verifier::opaque]
pub open spec fn rejected_before<F: FnMut(u32) -> Result<Vec<u8>>>(read: F, offsets: Seq<u32>, address: u32) -> bool {
    forall|j: int|
        0 <= j < offsets.len() && #[trigger] offsets[j] < address ==> read_rejected(read, offsets[j])
}

/// Reads each candidate offset in turn and returns the first that holds a
/// partition table with an application partition; a read error ends the
/// search with that error, and when no candidate fits the last reason is
/// reported.
#[verifier::loop_isolation(false)]
pub fn discover_partition_table_with<F: FnMut(u32) -> Result<Vec<u8>>>(
    declared_offset: Option<u32>,
    read: F,
) -> (r: Result<(u32, Vec<PartitionEntry>)>)
    requires
        forall|a: u32| call_requires(read, (a,)),
    ensures
        r matches Ok((address, entries)) ==> {
            &&& candidate_offsets(declared_offset).contains(address)
            &&& rejected_before(read, candidate_offsets(declared_offset), address)
            &&& has_application(entries_view(entries@))
            &&& exists|b: Vec<u8>|
                #[trigger] call_ensures(read, (address,), Ok::<Vec<u8>, OperationError>(b))
                    && spec_parse_partition_table(b@) == Ok::<Seq<PartitionView>, Failure>(entries_view(entries@))
        },
        r matches Err(e) ==> {
            ||| exists|a: u32|
                candidate_offsets(declared_offset).contains(a)
                    && #[trigger] call_ensures(read, (a,), Err::<Vec<u8>, OperationError>(e))
                    && rejected_before(read, candidate_offsets(declared_offset), a)
            ||| {
                &&& e.code == ErrorCode::PartitionInvalid
                &&& !e.retryable
                &&& e.message@ == "Не удалось обнаружить partition table на плате"@
                &&& forall|j: int| 0 <= j < candidate_offsets(declared_offset).len()
                    ==> read_rejected(read, #[trigger] candidate_offsets(declared_offset)[j])
                &&& exists|b: Vec<u8>|
                    #[trigger] call_ensures(
                        read,
                        (candidate_offsets(declared_offset).last(),),
                        Ok::<Vec<u8>, OperationError>(b),
                    ) && !holds_application_table(b@)
                        && (e.detail matches Some(d) && d@ == failure_text(rejection(b@)))
            }
        },
{
    broadcast use vstd::function::group_function_axioms;
    let ghost offsets = candidate_offsets(declared_offset);
    let ghost read0 = read;
    let mut read = read;
    let count: u32 = if declared_offset.is_some() { 1 } else { 24 };
    let mut last_error: Option<OperationError> = None;
    let ghost mut last_read: Vec<u8> = vstd::pervasive::arbitrary();
    let mut i: u32 = 0;
    while i < count
        invariant
            read == read0,
            forall|a: u32| call_requires(read, (a,)),
            offsets == candidate_offsets(declared_offset),
            count == offsets.len(),
            i <= count,
            forall|j: int| 0 <= j < i ==> read_rejected(read, #[trigger] offsets[j]),
            i > 0 ==> {
                &&& call_ensures(read, (offsets[i - 1],), Ok::<Vec<u8>, OperationError>(last_read))
                &&& !holds_application_table(last_read@)
                &&& (last_error matches Some(e) && fails_as(e, rejection(last_read@)))
            },
        decreases count - i,
    {
        let address: u32 = match declared_offset {
            Some(offset) => offset,
            None => 0x8000 + i * 0x1000,
        };
        assert(offsets[i as int] == address);
        let outcome = read(address);
        assert(call_ensures(read, (address,), outcome));
        let bytes = match outcome {
            Ok(bytes) => bytes,
            Err(e) => {
                assert(offsets.contains(address));
                assert(call_ensures(read, (address,), Err::<Vec<u8>, OperationError>(e)));
                assert(rejected_before(read0, offsets, address)) by {
                    reveal(rejected_before);
                    assert forall|j: int| 0 <= j < offsets.len() && #[trigger] offsets[j] < address
                        implies read_rejected(read0, offsets[j]) by {
                        assert(j < i);
                    }
                }
                return Err(e);
            },
        };
        match discovery_step(bytes.as_slice()) {
            DiscoveryStep::Found(entries) => {
                assert(call_ensures(read, (address,), Ok::<Vec<u8>, OperationError>(bytes)));
                assert(offsets.contains(address));
                assert(rejected_before(read0, offsets, address)) by {
                    reveal(rejected_before);
                    assert forall|j: int| 0 <= j < offsets.len() && #[trigger] offsets[j] < address
                        implies read_rejected(read0, offsets[j]) by {
                        assert(j < i);
                    }
                }
                assert(spec_parse_partition_table(bytes@) == Ok::<Seq<PartitionView>, Failure>(
                    entries_view(entries@),
                ));
                return Ok((address, entries));
            },
            DiscoveryStep::Rejected(e) => {
                assert(call_ensures(read, (address,), Ok::<Vec<u8>, OperationError>(bytes)));
                assert(read_rejected(read, offsets[i as int]));
                proof {
                    last_read = bytes;
                }
                last_error = Some(e);
            },
        }
        i = i + 1;
    }
    let detail = match last_error {
        Some(e) => e.display_text(),
        None => String::from_str("проверяемый диапазон пуст"),
    };
    assert(offsets[count - 1] == offsets.last());
    assert(detail@ == failure_text(rejection(last_read@)));
    let error = OperationError::new(
        ErrorCode::PartitionInvalid,
        "Не удалось обнаружить partition table на плате",
    ).with_detail(detail);
    assert(call_ensures(read, (offsets.last(),), Ok::<Vec<u8>, OperationError>(last_read)));
    Err(error)
}

/// A table holds an application exactly when it parses and has a factory
/// application (type 0, subtype 0) or an OTA application (type 0, subtype
/// 0x10 to 0x1F) among its entries: discovery accepts a table with OTA slots
/// and no factory partition.
pub proof fn lemma_application_table(bytes: Seq<u8>)
    ensures
        holds_application_table(bytes) <==> (spec_parse_partition_table(bytes) matches Ok(es) && exists|i: int|
            0 <= i < es.len() && (#[trigger] es[i]).partition_type == 0 && (es[i].subtype == 0 || (0x10
                <= es[i].subtype && es[i].subtype <= 0x1F))),
{
    if spec_parse_partition_table(bytes) is Ok {
        let es = spec_parse_partition_table(bytes)->Ok_0;
        if has_application(es) {
            let i = choose|i: int| 0 <= i < es.len() && (#[trigger] es[i].is_factory_app() || es[i].is_ota_app());
            assert(es[i].partition_type == 0 && (es[i].subtype == 0 || (0x10 <= es[i].subtype && es[i].subtype <= 0x1F)));
        }
        if exists|i: int|
            0 <= i < es.len() && (#[trigger] es[i]).partition_type == 0 && (es[i].subtype == 0 || (0x10
                <= es[i].subtype && es[i].subtype <= 0x1F)) {
            let i = choose|i: int|
                0 <= i < es.len() && (#[trigger] es[i]).partition_type == 0 && (es[i].subtype == 0 || (0x10
                    <= es[i].subtype && es[i].subtype <= 0x1F));
            assert(es[i].is_factory_app() || es[i].is_ota_app());
        }
    }
}

} // verus!
