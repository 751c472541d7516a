use vstd::prelude::*;
use crate::bytes::{
    all_bytes_are, bytes_equal, le_u16_at, le_u32_at, read_u16_le, read_u32_le, u32_le_bytes,
    u32_to_le_bytes, lemma_u32_le_roundtrip,
};
use crate::digest::{md5_digest, md5_of};
use crate::error::{ErrorCode, Failure, OperationError, fails_as, outcome_is};
use crate::ranges::{find_overlap, has_overlap, overlapping_pair};
use crate::text::utf8_to_string;
use vstd::utf8::{decode_utf8, valid_utf8};
use vstd::slice::slice_subrange;

verus! {

pub const PARTITION_MAGIC: u16 = 0x50AA;
pub const PARTITION_MD5_MAGIC: u16 = 0xEBEB;
pub const PARTITION_ENTRY_SIZE: usize = 32;
pub const OTA_SECTOR_SIZE: usize = 0x1000;
pub const OTA_RECORD_SIZE: usize = 32;
pub const TYPE_APP: u8 = 0x00;
pub const TYPE_DATA: u8 = 0x01;
pub const SUBTYPE_FACTORY: u8 = 0x00;
pub const SUBTYPE_OTA_DATA: u8 = 0x00;
pub const SUBTYPE_OTA_MIN: u8 = 0x10;
pub const SUBTYPE_OTA_MAX: u8 = 0x1F;
pub const OTA_STATE_NEW: u32 = 0;
pub const OTA_STATE_INVALID: u32 = 3;
pub const OTA_STATE_ABORTED: u32 = 4;
pub const OTA_STATE_UNDEFINED: u32 = 0xFFFF_FFFF;

/// One row of an ESP partition table.
#[derive(Debug, Clone, PartialEq, Eq)]
pub struct PartitionEntry {
    pub partition_type: u8,
    pub subtype: u8,
    pub offset: u32,
    pub size: u32,
    pub label: String,
    pub flags: u32,
}

/// A partition table row as a plain value.
pub struct PartitionView {
    pub partition_type: u8,
    pub subtype: u8,
    pub offset: u32,
    pub size: u32,
    pub label: Seq<char>,
    pub flags: u32,
}

impl PartitionView {
    pub open spec fn is_factory_app(self) -> bool {
        self.partition_type == TYPE_APP && self.subtype == SUBTYPE_FACTORY
    }

    pub open spec fn is_ota_app(self) -> bool {
        self.partition_type == TYPE_APP && SUBTYPE_OTA_MIN <= self.subtype <= SUBTYPE_OTA_MAX
    }

    pub open spec fn is_ota_data(self) -> bool {
        self.partition_type == TYPE_DATA && self.subtype == SUBTYPE_OTA_DATA
    }

    /// One past the last byte of the partition.
    pub open spec fn end(self) -> int {
        self.offset + self.size
    }
}

impl View for PartitionEntry {
    type V = PartitionView;

    open spec fn view(&self) -> PartitionView {
        PartitionView {
            partition_type: self.partition_type,
            subtype: self.subtype,
            offset: self.offset,
            size: self.size,
            label: self.label@,
            flags: self.flags,
        }
    }
}

/// The views of a sequence of entries.
pub open spec fn entries_view(s: Seq<PartitionEntry>) -> Seq<PartitionView> {
    s.map_values(|e: PartitionEntry| e@)
}

impl PartitionEntry {
    pub fn is_factory_app(&self) -> (b: bool)
        ensures
            b == self@.is_factory_app(),
    {
        self.partition_type == TYPE_APP && self.subtype == SUBTYPE_FACTORY
    }

    pub fn is_ota_app(&self) -> (b: bool)
        ensures
            b == self@.is_ota_app(),
    {
        self.partition_type == TYPE_APP && self.subtype >= SUBTYPE_OTA_MIN && self.subtype
            <= SUBTYPE_OTA_MAX
    }

    pub fn is_ota_data(&self) -> (b: bool)
        ensures
            b == self@.is_ota_data(),
    {
        self.partition_type == TYPE_DATA && self.subtype == SUBTYPE_OTA_DATA
    }

    /// A copy of the entry with the same view.
    pub fn duplicate(&self) -> (e: PartitionEntry)
        ensures
            e@ == self@,
    {
        PartitionEntry {
            partition_type: self.partition_type,
            subtype: self.subtype,
            offset: self.offset,
            size: self.size,
            label: self.label.clone(),
            flags: self.flags,
        }
    }
}

pub open spec fn partition_failure(message: Seq<char>) -> Failure {
    (ErrorCode::PartitionInvalid, message)
}

pub open spec fn ota_failure(message: Seq<char>) -> Failure {
    (ErrorCode::OtaStateInvalid, message)
}

fn partition_error(message: &str) -> (e: OperationError)
    ensures
        fails_as(e, partition_failure(message@)),
        e.detail is None,
{
    OperationError::new(ErrorCode::PartitionInvalid, message)
}

fn ota_error(message: &str) -> (e: OperationError)
    ensures
        fails_as(e, ota_failure(message@)),
        e.detail is None,
{
    OperationError::new(ErrorCode::OtaStateInvalid, message)
}

// ---------------------------------------------------------------------------
// CRC used by the ESP ROM for OTA records
// ---------------------------------------------------------------------------

/// One bit step of the reflected CRC-32 (polynomial 0xEDB88320).
pub open spec fn crc_bit(crc: u32) -> u32 {
    if crc & 1 != 0 {
        (crc >> 1) ^ 0xEDB8_8320u32
    } else {
        crc >> 1
    }
}

/// The CRC register after `n` bit steps.
pub open spec fn crc_bits(crc: u32, n: nat) -> u32
    decreases n,
{
    if n == 0 {
        crc
    } else {
        crc_bit(crc_bits(crc, (n - 1) as nat))
    }
}

/// The CRC register after absorbing one byte.
pub open spec fn crc_byte(crc: u32, b: u8) -> u32 {
    crc_bits(crc ^ (b as u32), 8)
}

/// The CRC register after absorbing a byte sequence.
pub open spec fn crc_register(crc: u32, s: Seq<u8>) -> u32
    decreases s.len(),
{
    if s.len() == 0 {
        crc
    } else {
        crc_byte(crc_register(crc, s.drop_last()), s.last())
    }
}

/// The little-endian CRC-32 of the ESP ROM, started from `initial`.
pub open spec fn spec_esp_crc32_le(initial: u32, s: Seq<u8>) -> u32 {
    crc_register(initial ^ 0xFFFF_FFFFu32, s) ^ 0xFFFF_FFFFu32
}

pub fn esp_crc32_le(initial: u32, bytes: &[u8]) -> (crc: u32)
    ensures
        crc == spec_esp_crc32_le(initial, bytes@),
{
    let mut crc: u32 = initial ^ 0xFFFF_FFFFu32;
    let mut i: usize = 0;
    while i < bytes.len()
        invariant
            i <= bytes@.len(),
            crc == crc_register(initial ^ 0xFFFF_FFFFu32, bytes@.take(i as int)),
        decreases bytes@.len() - i,
    {
        let byte = bytes[i];
        crc = crc ^ (byte as u32);
        let ghost start = crc;
        let mut bit: usize = 0;
        while bit < 8
            invariant
                bit <= 8,
                crc == crc_bits(start, bit as nat),
            decreases 8 - bit,
        {
            crc = if crc & 1 != 0 {
                (crc >> 1) ^ 0xEDB8_8320u32
            } else {
                crc >> 1
            };
            bit = bit + 1;
        }
        proof {
            assert(bytes@.take(i + 1).drop_last() =~= bytes@.take(i as int));
        }
        i = i + 1;
    }
    assert(bytes@.take(i as int) =~= bytes@);
    crc ^ 0xFFFF_FFFFu32
}

// ---------------------------------------------------------------------------
// OTA records
// ---------------------------------------------------------------------------

/// The fields of an `otadata` record that the selection reads.
#[derive(Debug, Clone, Copy, PartialEq, Eq)]
pub struct OtaRecord {
    pub sequence: u32,
    pub state: u32,
    pub crc: u32,
}

/// The CRC that a record with this sequence must carry.
pub open spec fn record_crc(sequence: u32) -> u32 {
    spec_esp_crc32_le(0xFFFF_FFFFu32, u32_le_bytes(sequence))
}

/// How a 32-byte `otadata` record reads: erased (all 0xFF) is no record;
/// otherwise the sequence must not be blank and the CRC must match.
pub open spec fn spec_parse_ota_record(raw: Seq<u8>) -> Result<Option<OtaRecord>, Failure> {
    if forall|j: int| 0 <= j < raw.len() ==> raw[j] == 0xFF {
        Ok(None)
    } else {
        let record = OtaRecord {
            sequence: le_u32_at(raw, 0) as u32,
            state: le_u32_at(raw, 24) as u32,
            crc: le_u32_at(raw, 28) as u32,
        };
        if record.sequence == 0xFFFF_FFFFu32 {
            Err(ota_failure("Непустая запись otadata имеет пустой sequence"@))
        } else if record.crc != record_crc(record.sequence) {
            Err(ota_failure("CRC записи otadata не совпадает"@))
        } else {
            Ok(Some(record))
        }
    }
}

pub fn parse_ota_record(raw: &[u8]) -> (r: Result<Option<OtaRecord>, OperationError>)
    requires
        raw@.len() == OTA_RECORD_SIZE,
    ensures
        outcome_is(r, spec_parse_ota_record(raw@)),
{
    if all_bytes_are(raw, 0xFF) {
        return Ok(None);
    }
    let record = OtaRecord {
        sequence: read_u32_le(raw, 0),
        state: read_u32_le(raw, 24),
        crc: read_u32_le(raw, 28),
    };
    if record.sequence == 0xFFFF_FFFFu32 {
        return Err(ota_error("Непустая запись otadata имеет пустой sequence"));
    }
    let seq_bytes = u32_to_le_bytes(record.sequence);
    let expected = esp_crc32_le(0xFFFF_FFFFu32, seq_bytes.as_slice());
    if record.crc != expected {
        return Err(ota_error("CRC записи otadata не совпадает"));
    }
    Ok(Some(record))
}

/// A record the bootloader may boot from: neither invalid nor aborted.
pub open spec fn spec_record_bootable(record: OtaRecord) -> bool {
    record.state != OTA_STATE_INVALID && record.state != OTA_STATE_ABORTED
}

pub fn record_bootable(record: OtaRecord) -> (b: bool)
    ensures
        b == spec_record_bootable(record),
{
    record.state != OTA_STATE_INVALID && record.state != OTA_STATE_ABORTED
}

/// The sector to overwrite: an empty one first, else the one with the
/// lower sequence (the second on a tie).
pub open spec fn spec_choose_metadata_sector(r0: Option<OtaRecord>, r1: Option<OtaRecord>) -> usize {
    match (r0, r1) {
        (None, _) => 0,
        (Some(_), None) => 1,
        (Some(left), Some(right)) => if left.sequence >= right.sequence { 1 } else { 0 },
    }
}

pub fn choose_metadata_sector(r0: Option<OtaRecord>, r1: Option<OtaRecord>) -> (s: usize)
    ensures
        s == spec_choose_metadata_sector(r0, r1),
{
    match (r0, r1) {
        (None, _) => 0,
        (Some(_), None) => 1,
        (Some(left), Some(right)) => if left.sequence >= right.sequence { 1 } else { 0 },
    }
}

/// The decision to switch the bootloader to a new OTA slot.
#[derive(Debug, Clone, Copy, PartialEq, Eq)]
pub struct OtaSwitch {
    pub target_index: usize,
    pub target_sequence: u32,
    pub metadata_sector: usize,
    pub rollback_enabled: bool,
}

/// The state written with a new sequence: NEW when rollback is enabled,
/// UNDEFINED otherwise.
pub open spec fn switch_state(rollback_enabled: bool) -> u32 {
    if rollback_enabled { OTA_STATE_NEW } else { OTA_STATE_UNDEFINED }
}

/// The 4 KiB `otadata` sector that selects the switch's sequence: the
/// sequence in bytes 0..4, the state in 24..28, the CRC in 28..32, and 0xFF
/// everywhere else.
pub open spec fn spec_otadata_sector(switch: OtaSwitch) -> Seq<u8> {
    Seq::new(
        OTA_SECTOR_SIZE as nat,
        |i: int|
            if i < 4 {
                u32_le_bytes(switch.target_sequence)[i]
            } else if 24 <= i < 28 {
                u32_le_bytes(switch_state(switch.rollback_enabled))[i - 24]
            } else if 28 <= i < 32 {
                u32_le_bytes(record_crc(switch.target_sequence))[i - 28]
            } else {
                0xFFu8
            },
    )
}

fn write_u32_at(sector: &mut Vec<u8>, at: usize, value: u32)
    requires
        at + 4 <= old(sector)@.len(),
        at + 4 <= OTA_SECTOR_SIZE,
    ensures
        final(sector)@.len() == old(sector)@.len(),
        forall|i: int|
            0 <= i < final(sector)@.len() ==> #[trigger] final(sector)@[i] == if at <= i < at + 4 {
                u32_le_bytes(value)[i - at]
            } else {
                old(sector)@[i]
            },
{
    let b = u32_to_le_bytes(value);
    sector.set(at, b[0]);
    sector.set(at + 1, b[1]);
    sector.set(at + 2, b[2]);
    sector.set(at + 3, b[3]);
}

pub fn build_otadata_sector(switch: &OtaSwitch) -> (sector: Vec<u8>)
    ensures
        sector@ == spec_otadata_sector(*switch),
{
    let mut sector: Vec<u8> = vec![0xFFu8; OTA_SECTOR_SIZE];
    write_u32_at(&mut sector, 0, switch.target_sequence);
    let state = if switch.rollback_enabled { OTA_STATE_NEW } else { OTA_STATE_UNDEFINED };
    write_u32_at(&mut sector, 24, state);
    let seq_bytes = u32_to_le_bytes(switch.target_sequence);
    let crc = esp_crc32_le(0xFFFF_FFFFu32, seq_bytes.as_slice());
    write_u32_at(&mut sector, 28, crc);
    assert(sector@ =~= spec_otadata_sector(*switch));
    sector
}

/// The record that a sector written by [`build_otadata_sector`] reads back
/// as: the switch's sequence, in the state chosen by the rollback policy,
/// bootable, and accepted by the CRC check.
pub proof fn lemma_written_record_reads_back(switch: OtaSwitch)
    requires
        switch.target_sequence != 0xFFFF_FFFFu32,
    ensures
        spec_parse_ota_record(spec_otadata_sector(switch).subrange(0, OTA_RECORD_SIZE as int))
            == Ok::<Option<OtaRecord>, Failure>(
            Some(
                OtaRecord {
                    sequence: switch.target_sequence,
                    state: switch_state(switch.rollback_enabled),
                    crc: record_crc(switch.target_sequence),
                },
            ),
        ),
        spec_record_bootable(
            OtaRecord {
                sequence: switch.target_sequence,
                state: switch_state(switch.rollback_enabled),
                crc: record_crc(switch.target_sequence),
            },
        ),
{
    let raw = spec_otadata_sector(switch).subrange(0, OTA_RECORD_SIZE as int);
    lemma_u32_le_roundtrip(switch.target_sequence);
    lemma_u32_le_roundtrip(switch_state(switch.rollback_enabled));
    lemma_u32_le_roundtrip(record_crc(switch.target_sequence));
    assert(raw.subrange(0, 4) =~= u32_le_bytes(switch.target_sequence));
    assert(le_u32_at(raw, 0) == le_u32_at(u32_le_bytes(switch.target_sequence), 0));
    assert(le_u32_at(raw, 24) == le_u32_at(u32_le_bytes(switch_state(switch.rollback_enabled)), 0));
    assert(le_u32_at(raw, 28) == le_u32_at(u32_le_bytes(record_crc(switch.target_sequence)), 0));
    // the sequence's first byte differs from 0xFF unless the whole value is 0xFFFF_FFFF,
    // so some byte of the record is not 0xFF.
    if forall|j: int| 0 <= j < raw.len() ==> raw[j] == 0xFF {
        assert(raw[0] == 0xFF && raw[1] == 0xFF && raw[2] == 0xFF && raw[3] == 0xFF);
        assert(false);
    }
}


// ---------------------------------------------------------------------------
// Partition tables
// ---------------------------------------------------------------------------

/// An executable list of entries agrees with a specified outcome.
pub open spec fn entries_outcome(
    r: Result<Vec<PartitionEntry>, OperationError>,
    s: Result<Seq<PartitionView>, Failure>,
) -> bool {
    match (r, s) {
        (Ok(a), Ok(b)) => entries_view(a@) == b,
        (Err(e), Err(f)) => fails_as(e, f),
        _ => false,
    }
}

pub open spec fn entry_starts(es: Seq<PartitionView>) -> Seq<u32> {
    es.map_values(|e: PartitionView| e.offset)
}

pub open spec fn entry_ends(es: Seq<PartitionView>) -> Seq<u32> {
    es.map_values(|e: PartitionView| (e.offset + e.size) as u32)
}

/// The detail of an overlap error: the two names joined by " и ".
pub open spec fn pair_detail(a: Seq<char>, b: Seq<char>) -> Seq<char> {
    a + " и "@ + b
}

/// Partitions must end within the 32-bit address space and must not overlap.
pub open spec fn spec_validate_partition_ranges(es: Seq<PartitionView>) -> Result<(), Failure> {
    if exists|i: int| 0 <= i < es.len() && #[trigger] es[i].end() > u32::MAX {
        Err(partition_failure("Диапазон раздела переполняется"@))
    } else if has_overlap(entry_starts(es), entry_ends(es)) {
        Err(partition_failure("Разделы пересекаются"@))
    } else {
        Ok(())
    }
}

/// Joins two names with " и ".
pub fn join_pair(a: &String, b: &String) -> (s: String)
    ensures
        s@ == pair_detail(a@, b@),
{
    let mut s = a.clone();
    s.append(" и ");
    s.append(b.as_str());
    s
}

pub fn validate_partition_ranges(entries: &[PartitionEntry]) -> (r: Result<(), OperationError>)
    ensures
        outcome_is(r, spec_validate_partition_ranges(entries_view(entries@))),
        r matches Err(e) ==> {
            let es = entries_view(entries@);
            if exists|i: int| 0 <= i < es.len() && #[trigger] es[i].end() > u32::MAX {
                e.detail is None
            } else {
                exists|i: int, j: int|
                    #![trigger es[i], es[j]]
                    overlapping_pair(entry_starts(es), entry_ends(es), i, j) && (e.detail
                        matches Some(d) && d@ == pair_detail(es[i].label, es[j].label))
            }
        },
{
    let ghost es = entries_view(entries@);
    let mut starts: Vec<u32> = Vec::new();
    let mut ends: Vec<u32> = Vec::new();
    let mut i: usize = 0;
    while i < entries.len()
        invariant
            es == entries_view(entries@),
            i <= entries@.len(),
            starts@ == entry_starts(es.take(i as int)),
            ends@ == entry_ends(es.take(i as int)),
            forall|k: int| 0 <= k < i ==> #[trigger] es[k].end() <= u32::MAX,
        decreases entries@.len() - i,
    {
        let offset = entries[i].offset;
        let size = entries[i].size;
        if size > 0xFFFF_FFFFu32 - offset {
            assert(es[i as int].end() > u32::MAX);
            return Err(partition_error("Диапазон раздела переполняется"));
        }
        starts.push(offset);
        ends.push(offset + size);
        proof {
            assert(starts@ =~= entry_starts(es.take(i + 1)));
            assert(ends@ =~= entry_ends(es.take(i + 1)));
        }
        i = i + 1;
    }
    assert(es.take(i as int) =~= es);
    match find_overlap(starts.as_slice(), ends.as_slice()) {
        Some((a, b)) => {
            let detail = join_pair(&entries[a].label, &entries[b].label);
            Err(partition_error("Разделы пересекаются").with_detail(detail))
        },
        None => Ok(()),
    }
}

/// How far a scan of partition rows has come.
pub enum RowScan {
    /// Still reading; the entries so far.
    Open(Seq<PartitionView>),
    /// An end marker (or a matching MD5 row) closed the table.
    Closed(Seq<PartitionView>),
    /// A row was rejected.
    Failed(Failure),
}

/// The number of label bytes before the first 0x00 or 0xFF.
pub open spec fn label_len(s: Seq<u8>) -> nat
    decreases s.len(),
{
    if s.len() == 0 {
        0
    } else if s[0] == 0 || s[0] == 0xFF {
        0
    } else {
        1 + label_len(s.drop_first())
    }
}

/// The first 16 bytes of the MD5 row of a partition table.
pub open spec fn md5_marker() -> Seq<u8> {
    seq![
        0xEBu8, 0xEB, 0xFF, 0xFF, 0xFF, 0xFF, 0xFF, 0xFF, 0xFF, 0xFF, 0xFF, 0xFF, 0xFF, 0xFF, 0xFF,
        0xFF,
    ]
}

/// Reads row `k` (bytes `32k .. 32k+32`) on top of the entries so far.
pub open spec fn row_step(bytes: Seq<u8>, k: int, acc: Seq<PartitionView>) -> RowScan {
    let base = 32 * k;
    let magic = le_u16_at(bytes, base);
    if magic == 0xFFFF {
        RowScan::Closed(acc)
    } else if magic == PARTITION_MD5_MAGIC {
        if bytes.subrange(base, base + 16) == md5_marker() && md5_digest(bytes.subrange(0, base))
            == bytes.subrange(base + 16, base + 32) {
            RowScan::Closed(acc)
        } else {
            RowScan::Failed(partition_failure("MD5 partition table не совпадает"@))
        }
    } else if magic != PARTITION_MAGIC {
        RowScan::Failed(partition_failure("Неверная сигнатура записи partition table"@))
    } else if le_u32_at(bytes, base + 8) == 0 {
        RowScan::Failed(partition_failure("Раздел нулевого размера"@))
    } else {
        let field = bytes.subrange(base + 12, base + 28);
        let label = field.take(label_len(field) as int);
        if !valid_utf8(label) {
            RowScan::Failed(partition_failure("Метка раздела не является UTF-8"@))
        } else {
            RowScan::Open(
                acc.push(
                    PartitionView {
                        partition_type: bytes[base + 2],
                        subtype: bytes[base + 3],
                        offset: le_u32_at(bytes, base + 4) as u32,
                        size: le_u32_at(bytes, base + 8) as u32,
                        label: decode_utf8(label),
                        flags: le_u32_at(bytes, base + 28) as u32,
                    },
                ),
            )
        }
    }
}

/// The scan after the first `k` rows.
pub open spec fn scan_rows(bytes: Seq<u8>, k: nat) -> RowScan
    decreases k,
{
    if k == 0 {
        RowScan::Open(seq![])
    } else {
        match scan_rows(bytes, (k - 1) as nat) {
            RowScan::Open(acc) => row_step(bytes, k - 1, acc),
            other => other,
        }
    }
}

/// A closed or failed scan stays as it is.
proof fn lemma_scan_settled(bytes: Seq<u8>, k: nat, m: nat)
    requires
        k <= m,
        !(scan_rows(bytes, k) is Open),
    ensures
        scan_rows(bytes, m) == scan_rows(bytes, k),
    decreases m - k,
{
    if k < m {
        lemma_scan_settled(bytes, k, (m - 1) as nat);
    }
}

/// What a partition table image holds: whole 32-byte rows, read until an end
/// marker or a matching MD5 row, at least one entry, and entries that neither
/// overflow nor overlap.
pub open spec fn spec_parse_partition_table(bytes: Seq<u8>) -> Result<Seq<PartitionView>, Failure> {
    if bytes.len() < 32 || bytes.len() % 32 != 0 {
        Err(partition_failure("Таблица разделов слишком короткая"@))
    } else {
        match scan_rows(bytes, (bytes.len() / 32) as nat) {
            RowScan::Failed(f) => Err(f),
            RowScan::Open(es) => if es.len() == 0 {
                Err(partition_failure("Таблица разделов пуста"@))
            } else {
                Err(partition_failure("Таблица разделов не имеет end marker"@))
            },
            RowScan::Closed(es) => if es.len() == 0 {
                Err(partition_failure("Таблица разделов пуста"@))
            } else {
                match spec_validate_partition_ranges(es) {
                    Err(f) => Err(f),
                    Ok(_) => Ok(es),
                }
            },
        }
    }
}

fn is_md5_marker(s: &[u8]) -> (r: bool)
    requires
        s@.len() == 16,
    ensures
        r == (s@ == md5_marker()),
{
    if s[0] != 0xEB || s[1] != 0xEB {
        return false;
    }
    let mut i: usize = 2;
    while i < 16
        invariant
            s@.len() == 16,
            2 <= i <= 16,
            s@[0] == 0xEB && s@[1] == 0xEB,
            forall|j: int| 2 <= j < i ==> s@[j] == 0xFF,
        decreases 16 - i,
    {
        if s[i] != 0xFF {
            return false;
        }
        i = i + 1;
    }
    assert(s@ =~= md5_marker());
    true
}

fn label_end(field: &[u8]) -> (n: usize)
    ensures
        n == label_len(field@),
        n <= field@.len(),
{
    let mut i: usize = 0;
    assert(field@.skip(0) =~= field@);
    while i < field.len() && field[i] != 0 && field[i] != 0xFF
        invariant
            i <= field@.len(),
            label_len(field@) == i + label_len(field@.skip(i as int)),
        decreases field@.len() - i,
    {
        assert(field@.skip(i as int).drop_first() =~= field@.skip(i + 1));
        i = i + 1;
    }
    if i < field.len() {
        assert(field@.skip(i as int)[0] == field@[i as int]);
    } else {
        assert(field@.skip(i as int).len() == 0);
    }
    i
}

enum RowOutcome {
    End,
    Entry(PartitionEntry),
}

fn read_row(bytes: &[u8], k: usize) -> (r: Result<RowOutcome, OperationError>)
    requires
        32 * k + 32 <= bytes@.len(),
    ensures
        match r {
            Ok(RowOutcome::End) => row_step(bytes@, k as int, seq![]) == RowScan::Closed(seq![]),
            Ok(RowOutcome::Entry(e)) => forall|acc: Seq<PartitionView>|
                #[trigger] row_step(bytes@, k as int, acc) == RowScan::Open(acc.push(e@)),
            Err(err) => exists|f: Failure|
                fails_as(err, f) && forall|acc: Seq<PartitionView>|
                    #[trigger] row_step(bytes@, k as int, acc) == RowScan::Failed(f),
        },
{
    let len = bytes.len();
    assert(32 * k + 32 <= len);
    let base = k * 32;
    let magic = read_u16_le(bytes, base);
    if magic == 0xFFFF {
        return Ok(RowOutcome::End);
    }
    if magic == PARTITION_MD5_MAGIC {
        let marker = slice_subrange(bytes, base, base + 16);
        let stored = slice_subrange(bytes, base + 16, base + 32);
        let ok = if is_md5_marker(marker) {
            let prefix = slice_subrange(bytes, 0, base);
            let digest = md5_of(prefix);
            bytes_equal(digest.as_slice(), stored)
        } else {
            false
        };
        if ok {
            return Ok(RowOutcome::End);
        }
        let err = partition_error("MD5 partition table не совпадает");
        assert(forall|acc: Seq<PartitionView>| #[trigger] row_step(bytes@, k as int, acc) == RowScan::Failed(partition_failure("MD5 partition table не совпадает"@)));
        return Err(err);
    }
    if magic != PARTITION_MAGIC {
        let err = partition_error("Неверная сигнатура записи partition table");
        assert(forall|acc: Seq<PartitionView>| #[trigger] row_step(bytes@, k as int, acc) == RowScan::Failed(partition_failure("Неверная сигнатура записи partition table"@)));
        return Err(err);
    }
    let offset = read_u32_le(bytes, base + 4);
    let size = read_u32_le(bytes, base + 8);
    if size == 0 {
        let err = partition_error("Раздел нулевого размера");
        assert(forall|acc: Seq<PartitionView>| #[trigger] row_step(bytes@, k as int, acc) == RowScan::Failed(partition_failure("Раздел нулевого размера"@)));
        return Err(err);
    }
    let field = slice_subrange(bytes, base + 12, base + 28);
    let end = label_end(field);
    let label_bytes = slice_subrange(field, 0, end);
    assert(label_bytes@ =~= field@.take(end as int));
    let label = match utf8_to_string(label_bytes) {
        Some(label) => label,
        None => {
            let err = partition_error("Метка раздела не является UTF-8");
            assert(forall|acc: Seq<PartitionView>| #[trigger] row_step(bytes@, k as int, acc) == RowScan::Failed(partition_failure("Метка раздела не является UTF-8"@)));
            return Err(err);
        },
    };
    let entry = PartitionEntry {
        partition_type: bytes[base + 2],
        subtype: bytes[base + 3],
        offset,
        size,
        label,
        flags: read_u32_le(bytes, base + 28),
    };
    Ok(RowOutcome::Entry(entry))
}

pub fn parse_partition_table(bytes: &[u8]) -> (r: Result<Vec<PartitionEntry>, OperationError>)
    ensures
        entries_outcome(r, spec_parse_partition_table(bytes@)),
{
    if bytes.len() < PARTITION_ENTRY_SIZE || bytes.len() % PARTITION_ENTRY_SIZE != 0 {
        return Err(partition_error("Таблица разделов слишком короткая"));
    }
    let n = bytes.len() / PARTITION_ENTRY_SIZE;
    let mut entries: Vec<PartitionEntry> = Vec::new();
    let mut terminated = false;
    let mut k: usize = 0;
    assert(entries_view(entries@) =~= Seq::<PartitionView>::empty());
    while k < n && !terminated
        invariant
            n == bytes@.len() / 32,
            bytes@.len() % 32 == 0,
            k <= n,
            scan_rows(bytes@, k as nat) == if terminated {
                RowScan::Closed(entries_view(entries@))
            } else {
                RowScan::Open(entries_view(entries@))
            },
        decreases n - k,
    {
        match read_row(bytes, k) {
            Ok(RowOutcome::End) => {
                assert(row_step(bytes@, k as int, entries_view(entries@)) == RowScan::Closed(entries_view(entries@))) by {
                    let acc = entries_view(entries@);
                    let empty = Seq::<PartitionView>::empty();
                    assert(row_step(bytes@, k as int, empty) == RowScan::Closed(empty));
                }
                terminated = true;
            },
            Ok(RowOutcome::Entry(e)) => {
                let ghost before = entries_view(entries@);
                assert(row_step(bytes@, k as int, before) == RowScan::Open(before.push(e@)));
                entries.push(e);
                assert(entries_view(entries@) =~= before.push(e@));
            },
            Err(err) => {
                proof {
                    let f = choose|f: Failure|
                        fails_as(err, f) && forall|acc: Seq<PartitionView>|
                            #[trigger] row_step(bytes@, k as int, acc) == RowScan::Failed(f);
                    assert(row_step(bytes@, k as int, entries_view(entries@)) == RowScan::Failed(f));
                    lemma_scan_settled(bytes@, (k + 1) as nat, n as nat);
                }
                return Err(err);
            },
        }
        k = k + 1;
    }
    proof {
        lemma_scan_settled_or_done(bytes@, k as nat, n as nat, terminated);
    }
    if entries.len() == 0 {
        return Err(partition_error("Таблица разделов пуста"));
    }
    if !terminated {
        return Err(partition_error("Таблица разделов не имеет end marker"));
    }
    match validate_partition_ranges(entries.as_slice()) {
        Ok(()) => Ok(entries),
        Err(e) => Err(e),
    }
}

proof fn lemma_scan_settled_or_done(bytes: Seq<u8>, k: nat, n: nat, terminated: bool)
    requires
        k <= n,
        k == n || terminated,
        terminated ==> !(scan_rows(bytes, k) is Open),
    ensures
        scan_rows(bytes, n) == scan_rows(bytes, k),
{
    if k < n {
        lemma_scan_settled(bytes, k, n);
    }
}


// ---------------------------------------------------------------------------
// Choosing where an application goes
// ---------------------------------------------------------------------------

/// The entries that the selection looks up by role.
#[derive(Debug, Clone, Copy, PartialEq, Eq)]
pub enum EntryKind {
    FactoryApp,
    OtaData,
}

pub open spec fn kind_matches(e: PartitionView, kind: EntryKind) -> bool {
    match kind {
        EntryKind::FactoryApp => e.is_factory_app(),
        EntryKind::OtaData => e.is_ota_data(),
    }
}

/// The first entry of the given role, in table order.
pub open spec fn first_of_kind(es: Seq<PartitionView>, kind: EntryKind) -> Option<PartitionView>
    decreases es.len(),
{
    if es.len() == 0 {
        None
    } else if kind_matches(es[0], kind) {
        Some(es[0])
    } else {
        first_of_kind(es.drop_first(), kind)
    }
}

pub fn find_first(entries: &[PartitionEntry], kind: EntryKind) -> (r: Option<usize>)
    ensures
        match r {
            Some(i) => i < entries@.len() && first_of_kind(entries_view(entries@), kind) == Some(
                entries@[i as int]@,
            ),
            None => first_of_kind(entries_view(entries@), kind) is None,
        },
{
    let ghost es = entries_view(entries@);
    let mut i: usize = 0;
    assert(es.skip(0) =~= es);
    while i < entries.len()
        invariant
            es == entries_view(entries@),
            i <= es.len(),
            first_of_kind(es, kind) == first_of_kind(es.skip(i as int), kind),
        decreases es.len() - i,
    {
        let hit = match kind {
            EntryKind::FactoryApp => entries[i].is_factory_app(),
            EntryKind::OtaData => entries[i].is_ota_data(),
        };
        assert(es.skip(i as int)[0] == es[i as int]);
        if hit {
            return Some(i);
        }
        assert(es.skip(i as int).drop_first() =~= es.skip(i + 1));
        i = i + 1;
    }
    assert(es.skip(i as int).len() == 0);
    None
}

/// Inserts an entry after every entry whose subtype is not greater.
pub open spec fn insert_by_subtype(s: Seq<PartitionView>, e: PartitionView) -> Seq<PartitionView>
    decreases s.len(),
{
    if s.len() == 0 {
        seq![e]
    } else if s.last().subtype <= e.subtype {
        s.push(e)
    } else {
        insert_by_subtype(s.drop_last(), e).push(s.last())
    }
}

/// The OTA application partitions ordered by subtype; entries with equal
/// subtypes keep their table order.
pub open spec fn sorted_ota_apps(es: Seq<PartitionView>) -> Seq<PartitionView>
    decreases es.len(),
{
    if es.len() == 0 {
        seq![]
    } else {
        let rest = sorted_ota_apps(es.drop_last());
        if es.last().is_ota_app() {
            insert_by_subtype(rest, es.last())
        } else {
            rest
        }
    }
}

proof fn lemma_insert_at(s: Seq<PartitionView>, e: PartitionView, pos: int)
    requires
        0 <= pos <= s.len(),
        forall|k: int| pos <= k < s.len() ==> #[trigger] s[k].subtype > e.subtype,
        pos == 0 || s[pos - 1].subtype <= e.subtype,
    ensures
        insert_by_subtype(s, e) == s.take(pos) + seq![e] + s.skip(pos),
    decreases s.len(),
{
    if s.len() == 0 {
        assert(s.take(pos) + seq![e] + s.skip(pos) =~= seq![e]);
    } else if s.last().subtype <= e.subtype {
        assert(pos == s.len());
        assert(s.take(pos) + seq![e] + s.skip(pos) =~= s.push(e));
    } else {
        let t = s.drop_last();
        lemma_insert_at(t, e, pos);
        assert(s.take(pos) + seq![e] + s.skip(pos) =~= (t.take(pos) + seq![e] + t.skip(pos)).push(
            s.last(),
        ));
    }
}

fn insert_by_subtype_exec(v: &mut Vec<PartitionEntry>, e: PartitionEntry)
    ensures
        entries_view(final(v)@) == insert_by_subtype(entries_view(old(v)@), e@),
{
    let ghost s = entries_view(v@);
    let mut pos = v.len();
    while pos > 0 && v[pos - 1].subtype > e.subtype
        invariant
            s == entries_view(v@),
            pos <= v@.len(),
            forall|k: int| pos <= k < s.len() ==> #[trigger] s[k].subtype > e.subtype,
        decreases pos,
    {
        pos = pos - 1;
    }
    proof {
        lemma_insert_at(s, e@, pos as int);
    }
    v.insert(pos, e);
    assert(entries_view(v@) =~= s.take(pos as int) + seq![e@] + s.skip(pos as int));
}

/// The OTA application partitions, ordered as [`sorted_ota_apps`] orders them.
pub fn collect_ota_apps(entries: &[PartitionEntry]) -> (v: Vec<PartitionEntry>)
    ensures
        entries_view(v@) == sorted_ota_apps(entries_view(entries@)),
{
    let ghost es = entries_view(entries@);
    let mut v: Vec<PartitionEntry> = Vec::new();
    let mut i: usize = 0;
    assert(entries_view(v@) =~= sorted_ota_apps(es.take(0)));
    while i < entries.len()
        invariant
            es == entries_view(entries@),
            i <= es.len(),
            entries_view(v@) == sorted_ota_apps(es.take(i as int)),
        decreases es.len() - i,
    {
        assert(es.take(i + 1).drop_last() =~= es.take(i as int));
        if entries[i].is_ota_app() {
            insert_by_subtype_exec(&mut v, entries[i].duplicate());
        }
        i = i + 1;
    }
    assert(es.take(i as int) =~= es);
    v
}

/// The image must be non-empty and no larger than the partition.
pub open spec fn spec_ensure_image_fits(p: PartitionView, image_size: u64) -> Result<(), Failure> {
    if image_size == 0 || image_size > p.size {
        Err(partition_failure("Application BIN не помещается в целевой раздел"@))
    } else {
        Ok(())
    }
}

pub fn ensure_image_fits(partition: &PartitionEntry, image_size: u64) -> (r: Result<(), OperationError>)
    ensures
        outcome_is(r, spec_ensure_image_fits(partition@, image_size)),
        r matches Err(e) ==> e.detail is None,
{
    if image_size == 0 || image_size > partition.size as u64 {
        return Err(partition_error("Application BIN не помещается в целевой раздел"));
    }
    Ok(())
}

/// Some partition reaches past the end of the flash.
/// Every entry ends within the 32-bit address space, as in every table that
/// [`parse_partition_table`] accepts.
pub open spec fn ends_fit(es: Seq<PartitionView>) -> bool {
    forall|i: int| 0 <= i < es.len() ==> #[trigger] es[i].end() <= u32::MAX
}

/// Whether every entry ends within the 32-bit address space.
pub fn entries_end_within_u32(entries: &[PartitionEntry]) -> (b: bool)
    ensures
        b == ends_fit(entries_view(entries@)),
{
    let ghost es = entries_view(entries@);
    let mut i: usize = 0;
    while i < entries.len()
        invariant
            es == entries_view(entries@),
            i <= es.len(),
            forall|k: int| 0 <= k < i ==> #[trigger] es[k].end() <= u32::MAX,
        decreases es.len() - i,
    {
        assert(es[i as int] == entries@[i as int]@);
        if entries[i].offset as u64 + entries[i].size as u64 > 0xFFFF_FFFF {
            assert(es[i as int].end() > u32::MAX);
            return false;
        }
        i = i + 1;
    }
    true
}

pub open spec fn exceeds_flash(es: Seq<PartitionView>, flash_size: u64) -> bool {
    exists|i: int| 0 <= i < es.len() && #[trigger] es[i].end() > flash_size
}

pub open spec fn spec_validate_against_flash(es: Seq<PartitionView>, flash_size: u64) -> Result<(), Failure> {
    if exceeds_flash(es, flash_size) {
        Err(partition_failure("Раздел выходит за физический размер flash"@))
    } else {
        Ok(())
    }
}

pub fn validate_against_flash(entries: &[PartitionEntry], flash_size: u64) -> (r: Result<(), OperationError>)
    ensures
        outcome_is(r, spec_validate_against_flash(entries_view(entries@), flash_size)),
        r matches Err(e) ==> e.detail is None,
{
    let ghost es = entries_view(entries@);
    let mut i: usize = 0;
    while i < entries.len()
        invariant
            es == entries_view(entries@),
            i <= es.len(),
            forall|k: int| 0 <= k < i ==> #[trigger] es[k].end() <= flash_size,
        decreases es.len() - i,
    {
        if entries[i].offset as u64 + entries[i].size as u64 > flash_size {
            assert(es[i as int].end() > flash_size);
            return Err(partition_error("Раздел выходит за физический размер flash"));
        }
        i = i + 1;
    }
    Ok(())
}

/// The first OTA application partition of smallest subtype.
pub open spec fn first_min_ota(es: Seq<PartitionView>) -> Option<PartitionView>
    decreases es.len(),
{
    if es.len() == 0 {
        None
    } else {
        let best = first_min_ota(es.drop_last());
        if es.last().is_ota_app() && (best is None || es.last().subtype < best->0.subtype) {
            Some(es.last())
        } else {
            best
        }
    }
}

/// For a first flash: the factory partition if there is one, else the OTA
/// partition of smallest subtype, which must hold the image.
pub open spec fn spec_select_factory_application(es: Seq<PartitionView>, image_size: u64) -> Result<PartitionView, Failure> {
    let target = match first_of_kind(es, EntryKind::FactoryApp) {
        Some(f) => Some(f),
        None => first_min_ota(es),
    };
    match target {
        None => Err(partition_failure("Не найден application-раздел для factory flash"@)),
        Some(t) => match spec_ensure_image_fits(t, image_size) {
            Err(f) => Err(f),
            Ok(_) => Ok(t),
        },
    }
}

pub fn select_factory_application(entries: &[PartitionEntry], image_size: u64) -> (r: Result<PartitionEntry, OperationError>)
    ensures
        match (r, spec_select_factory_application(entries_view(entries@), image_size)) {
            (Ok(a), Ok(b)) => a@ == b,
            (Err(e), Err(f)) => fails_as(e, f),
            _ => false,
        },
{
    let ghost es = entries_view(entries@);
    let target = match find_first(entries, EntryKind::FactoryApp) {
        Some(i) => Some(entries[i].duplicate()),
        None => {
            let mut best: Option<usize> = None;
            let mut i: usize = 0;
            assert(es.take(0) =~= Seq::<PartitionView>::empty());
            while i < entries.len()
                invariant
                    es == entries_view(entries@),
                    i <= es.len(),
                    match best {
                        Some(b) => b < i && first_min_ota(es.take(i as int)) == Some(es[b as int]),
                        None => first_min_ota(es.take(i as int)) is None,
                    },
                decreases es.len() - i,
            {
                assert(es.take(i + 1).drop_last() =~= es.take(i as int));
                if entries[i].is_ota_app() {
                    let better = match best {
                        None => true,
                        Some(b) => entries[i].subtype < entries[b].subtype,
                    };
                    if better {
                        best = Some(i);
                    }
                }
                i = i + 1;
            }
            assert(es.take(i as int) =~= es);
            match best {
                Some(b) => Some(entries[b].duplicate()),
                None => None,
            }
        },
    };
    let target = match target {
        Some(t) => t,
        None => return Err(partition_error("Не найден application-раздел для factory flash")),
    };
    ensure_image_fits(&target, image_size)?;
    Ok(target)
}


// ---------------------------------------------------------------------------
// Update layout on a device
// ---------------------------------------------------------------------------

/// Where an application update is written.
#[derive(Debug, Clone, PartialEq, Eq)]
pub enum UpdateLayout {
    /// Overwrite the only application partition.
    InPlace { target: PartitionEntry },
    /// Write an inactive OTA slot, then switch `otadata` to it.
    Ota { target: PartitionEntry, ota_data: PartitionEntry, switch: OtaSwitch },
}

/// An update layout as a plain value.
pub enum LayoutView {
    InPlace { target: PartitionView },
    Ota { target: PartitionView, ota_data: PartitionView, switch: OtaSwitch },
}

impl View for UpdateLayout {
    type V = LayoutView;

    open spec fn view(&self) -> LayoutView {
        match self {
            UpdateLayout::InPlace { target } => LayoutView::InPlace { target: target@ },
            UpdateLayout::Ota { target, ota_data, switch } => LayoutView::Ota {
                target: target@,
                ota_data: ota_data@,
                switch: *switch,
            },
        }
    }
}

/// The bytes of optional `otadata` as a plain value.
pub open spec fn opt_bytes(otadata: Option<&[u8]>) -> Option<Seq<u8>> {
    match otadata {
        Some(s) => Some(s@),
        None => None,
    }
}

/// Both records are bootable and carry the same sequence.
pub open spec fn duplicate_bootable(r0: Option<OtaRecord>, r1: Option<OtaRecord>) -> bool {
    match (r0, r1) {
        (Some(a), Some(b)) => a.sequence == b.sequence && spec_record_bootable(a)
            && spec_record_bootable(b),
        _ => false,
    }
}

/// The bootable record of greatest sequence; of two equal ones, the second.
pub open spec fn active_record(r0: Option<OtaRecord>, r1: Option<OtaRecord>) -> Option<OtaRecord> {
    let b0 = r0 is Some && spec_record_bootable(r0->0);
    let b1 = r1 is Some && spec_record_bootable(r1->0);
    if b0 && b1 {
        if r1->0.sequence >= r0->0.sequence {
            r1
        } else {
            r0
        }
    } else if b0 {
        r0
    } else if b1 {
        r1
    } else {
        None
    }
}

/// The OTA slot the device runs now: the active record's sequence, counted
/// from 1, modulo the number of slots; with no active record, none when a
/// factory partition runs, else the first slot.
pub open spec fn current_slot(active: Option<OtaRecord>, has_factory: bool, count: int) -> Option<int> {
    match active {
        Some(r) => Some((r.sequence - 1) % count),
        None => if has_factory {
            None
        } else {
            Some(0)
        },
    }
}

/// The slot after the current one, or the first slot.
pub open spec fn next_slot(current: Option<int>, count: int) -> int {
    match current {
        Some(c) => (c + 1) % count,
        None => 0,
    }
}

/// The smallest sequence above `max_sequence` that selects slot
/// `target_index` (slot = (sequence - 1) mod count).
pub open spec fn next_sequence(target_index: int, count: int, max_sequence: int) -> int {
    let base = target_index + 1;
    if base > max_sequence {
        base
    } else {
        base + ((max_sequence - base) / count + 1) * count
    }
}

pub open spec fn max_active_sequence(active: Option<OtaRecord>) -> int {
    match active {
        Some(r) => r.sequence as int,
        None => 0,
    }
}

/// The layout once both records are read.
pub open spec fn layout_from_records(
    apps: Seq<PartitionView>,
    has_factory: bool,
    ota_data: PartitionView,
    r0: Option<OtaRecord>,
    r1: Option<OtaRecord>,
    image_size: u64,
    rollback_enabled: bool,
) -> Result<LayoutView, Failure> {
    if duplicate_bootable(r0, r1) {
        Err(ota_failure("Две записи otadata имеют одинаковый sequence"@))
    } else {
        let active = active_record(r0, r1);
        let count = apps.len() as int;
        let current = current_slot(active, has_factory, count);
        if count == 1 && current is Some {
            match spec_ensure_image_fits(apps[0], image_size) {
                Err(f) => Err(f),
                Ok(_) => Ok(LayoutView::InPlace { target: apps[0] }),
            }
        } else {
            let target_index = next_slot(current, count);
            match spec_ensure_image_fits(apps[target_index], image_size) {
                Err(f) => Err(f),
                Ok(_) => Ok(
                    LayoutView::Ota {
                        target: apps[target_index],
                        ota_data,
                        switch: OtaSwitch {
                            target_index: target_index as usize,
                            target_sequence: next_sequence(
                                target_index,
                                count,
                                max_active_sequence(active),
                            ) as u32,
                            metadata_sector: spec_choose_metadata_sector(r0, r1),
                            rollback_enabled,
                        },
                    },
                ),
            }
        }
    }
}

/// The arithmetic of [`layout_from_records`] stays in range: an active
/// record's sequence is at least 1, and a new sequence fits in 32 bits.
pub open spec fn records_arithmetic_ok(
    apps: Seq<PartitionView>,
    has_factory: bool,
    r0: Option<OtaRecord>,
    r1: Option<OtaRecord>,
    image_size: u64,
) -> bool {
    if duplicate_bootable(r0, r1) {
        true
    } else {
        let active = active_record(r0, r1);
        let count = apps.len() as int;
        let current = current_slot(active, has_factory, count);
        &&& (active matches Some(r) ==> r.sequence >= 1)
        &&& (!(count == 1 && current is Some) && spec_ensure_image_fits(
            apps[next_slot(current, count)],
            image_size,
        ) is Ok ==> next_sequence(next_slot(current, count), count, max_active_sequence(active))
            <= u32::MAX)
    }
}

/// How an application update is placed on a device with this partition
/// table and `otadata`: with no OTA slots, in place in the factory
/// partition; with OTA slots, in the slot after the running one, switched
/// by a record in the older `otadata` sector.
#[verifier::opaque]
pub open spec fn spec_select_update_layout(
    es: Seq<PartitionView>,
    otadata: Option<Seq<u8>>,
    flash_size: u64,
    image_size: u64,
    rollback_enabled: bool,
) -> Result<LayoutView, Failure> {
    if exceeds_flash(es, flash_size) {
        Err(partition_failure("Раздел выходит за физический размер flash"@))
    } else {
        let factory = first_of_kind(es, EntryKind::FactoryApp);
        let apps = sorted_ota_apps(es);
        if apps.len() == 0 {
            match factory {
                None => Err(partition_failure("Не найден application-раздел для обновления"@)),
                Some(t) => match spec_ensure_image_fits(t, image_size) {
                    Err(f) => Err(f),
                    Ok(_) => Ok(LayoutView::InPlace { target: t }),
                },
            }
        } else {
            match first_of_kind(es, EntryKind::OtaData) {
                None => Err(partition_failure("Не найден раздел otadata"@)),
                Some(od) => if od.size < 2 * OTA_SECTOR_SIZE {
                    Err(partition_failure("Раздел otadata меньше двух erase-секторов"@))
                } else {
                    match otadata {
                        None => Err(ota_failure("Не прочитаны OTA-метаданные"@)),
                        Some(raw) => if raw.len() < 2 * OTA_SECTOR_SIZE {
                            Err(ota_failure("OTA-метаданные короче 0x2000 байт"@))
                        } else {
                            match spec_parse_ota_record(raw.subrange(0, 32)) {
                                Err(f) => Err(f),
                                Ok(r0) => match spec_parse_ota_record(raw.subrange(0x1000, 0x1020)) {
                                    Err(f) => Err(f),
                                    Ok(r1) => layout_from_records(
                                        apps,
                                        factory is Some,
                                        od,
                                        r0,
                                        r1,
                                        image_size,
                                        rollback_enabled,
                                    ),
                                },
                            }
                        },
                    }
                },
            }
        }
    }
}

/// Where the layout computation would leave 32-bit arithmetic: it reaches
/// the records, and their sequences are out of range.
#[verifier::opaque]
pub open spec fn layout_arithmetic_ok(
    es: Seq<PartitionView>,
    otadata: Option<Seq<u8>>,
    flash_size: u64,
    image_size: u64,
) -> bool {
    let apps = sorted_ota_apps(es);
    let od = first_of_kind(es, EntryKind::OtaData);
    let reaches_records = !exceeds_flash(es, flash_size) && apps.len() != 0 && od is Some
        && od->0.size >= 2 * OTA_SECTOR_SIZE && otadata is Some && otadata->0.len() >= 2
        * OTA_SECTOR_SIZE;
    reaches_records ==> {
        let raw = otadata->0;
        let p0 = spec_parse_ota_record(raw.subrange(0, 32));
        let p1 = spec_parse_ota_record(raw.subrange(0x1000, 0x1020));
        p0 is Ok && p1 is Ok ==> records_arithmetic_ok(
            apps,
            first_of_kind(es, EntryKind::FactoryApp) is Some,
            p0->Ok_0,
            p1->Ok_0,
            image_size,
        )
    }
}

pub fn select_update_layout(
    entries: &[PartitionEntry],
    otadata: Option<&[u8]>,
    flash_size: u64,
    image_size: u64,
    rollback_enabled: bool,
) -> (r: Result<UpdateLayout, OperationError>)
    requires
        entries@.len() <= u32::MAX,
        layout_arithmetic_ok(entries_view(entries@), opt_bytes(otadata), flash_size, image_size),
    ensures
        match (r, spec_select_update_layout(entries_view(entries@), opt_bytes(otadata), flash_size, image_size, rollback_enabled)) {
            (Ok(a), Ok(b)) => a@ == b,
            (Err(e), Err(f)) => fails_as(e, f),
            _ => false,
        },
{
    let ghost es = entries_view(entries@);
    proof {
        reveal(spec_select_update_layout);
        reveal(layout_arithmetic_ok);
    }
    validate_against_flash(entries, flash_size)?;
    let factory = find_first(entries, EntryKind::FactoryApp);
    let ota_data = find_first(entries, EntryKind::OtaData);
    let mut apps = collect_ota_apps(entries);
    proof {
        lemma_sorted_ota_apps_len(es);
    }
    if apps.len() == 0 {
        let target = match factory {
            Some(i) => entries[i].duplicate(),
            None => return Err(partition_error("Не найден application-раздел для обновления")),
        };
        ensure_image_fits(&target, image_size)?;
        return Ok(UpdateLayout::InPlace { target });
    }
    let ota_data = match ota_data {
        Some(i) => entries[i].duplicate(),
        None => return Err(partition_error("Не найден раздел otadata")),
    };
    if ota_data.size < (OTA_SECTOR_SIZE * 2) as u32 {
        return Err(partition_error("Раздел otadata меньше двух erase-секторов"));
    }
    let raw = match otadata {
        Some(raw) => raw,
        None => return Err(ota_error("Не прочитаны OTA-метаданные")),
    };
    if raw.len() < OTA_SECTOR_SIZE * 2 {
        return Err(ota_error("OTA-метаданные короче 0x2000 байт"));
    }
    let r0 = parse_ota_record(slice_subrange(raw, 0, OTA_RECORD_SIZE))?;
    let r1 = parse_ota_record(slice_subrange(raw, OTA_SECTOR_SIZE, OTA_SECTOR_SIZE + OTA_RECORD_SIZE))?;
    if let (Some(left), Some(right)) = (r0, r1) {
        if left.sequence == right.sequence && record_bootable(left) && record_bootable(right) {
            return Err(ota_error("Две записи otadata имеют одинаковый sequence"));
        }
    }
    let b0 = match r0 {
        Some(r) => record_bootable(r),
        None => false,
    };
    let b1 = match r1 {
        Some(r) => record_bootable(r),
        None => false,
    };
    let active: Option<OtaRecord> = if b0 && b1 {
        if r1.unwrap().sequence >= r0.unwrap().sequence {
            r1
        } else {
            r0
        }
    } else if b0 {
        r0
    } else if b1 {
        r1
    } else {
        None
    };
    let count = apps.len();
    let current: Option<usize> = match active {
        Some(record) => Some(((record.sequence - 1) as usize) % count),
        None => if factory.is_some() {
            None
        } else {
            Some(0)
        },
    };
    if count == 1 && current.is_some() {
        let target = apps.remove(0);
        ensure_image_fits(&target, image_size)?;
        return Ok(UpdateLayout::InPlace { target });
    }
    let target_index: usize = match current {
        Some(index) => (index + 1) % count,
        None => 0,
    };
    let target = apps[target_index].duplicate();
    ensure_image_fits(&target, image_size)?;
    let max_sequence: u32 = match active {
        Some(record) => record.sequence,
        None => 0,
    };
    let base = target_index as u32 + 1;
    let count32 = count as u32;
    let target_sequence = if base > max_sequence {
        base
    } else {
        base + ((max_sequence - base) / count32 + 1) * count32
    };
    let metadata_sector = choose_metadata_sector(r0, r1);
    Ok(
        UpdateLayout::Ota {
            target,
            ota_data,
            switch: OtaSwitch { target_index, target_sequence, metadata_sector, rollback_enabled },
        },
    )
}


/// Whether [`select_update_layout`] can be asked about this device: the
/// table has at most `u32::MAX` rows and its 32-bit sequence arithmetic
/// stays in range.
pub fn layout_arithmetic_check(
    entries: &[PartitionEntry],
    otadata: Option<&[u8]>,
    flash_size: u64,
    image_size: u64,
) -> (b: bool)
    ensures
        b == (entries@.len() <= u32::MAX && layout_arithmetic_ok(
            entries_view(entries@),
            opt_bytes(otadata),
            flash_size,
            image_size,
        )),
{
    let ghost es = entries_view(entries@);
    proof {
        reveal(layout_arithmetic_ok);
    }
    if entries.len() as u64 > u32::MAX as u64 {
        return false;
    }
    if validate_against_flash(entries, flash_size).is_err() {
        return true;
    }
    let factory = find_first(entries, EntryKind::FactoryApp);
    let apps = collect_ota_apps(entries);
    if apps.len() == 0 {
        return true;
    }
    let od = match find_first(entries, EntryKind::OtaData) {
        Some(i) => i,
        None => return true,
    };
    if entries[od].size < (OTA_SECTOR_SIZE * 2) as u32 {
        return true;
    }
    let raw = match otadata {
        Some(raw) => raw,
        None => return true,
    };
    if raw.len() < OTA_SECTOR_SIZE * 2 {
        return true;
    }
    let r0 = match parse_ota_record(slice_subrange(raw, 0, OTA_RECORD_SIZE)) {
        Ok(r) => r,
        Err(_) => return true,
    };
    let r1 = match parse_ota_record(slice_subrange(raw, OTA_SECTOR_SIZE, OTA_SECTOR_SIZE + OTA_RECORD_SIZE)) {
        Ok(r) => r,
        Err(_) => return true,
    };
    records_arithmetic_check(apps.as_slice(), factory.is_some(), r0, r1, image_size)
}

/// Whether the sequence arithmetic for these records stays in range.
fn records_arithmetic_check(
    apps: &[PartitionEntry],
    has_factory: bool,
    r0: Option<OtaRecord>,
    r1: Option<OtaRecord>,
    image_size: u64,
) -> (b: bool)
    requires
        apps@.len() > 0,
    ensures
        b == records_arithmetic_ok(entries_view(apps@), has_factory, r0, r1, image_size),
{
    let ghost av = entries_view(apps@);
    if let (Some(left), Some(right)) = (r0, r1) {
        if left.sequence == right.sequence && record_bootable(left) && record_bootable(right) {
            return true;
        }
    }
    let b0 = match r0 {
        Some(r) => record_bootable(r),
        None => false,
    };
    let b1 = match r1 {
        Some(r) => record_bootable(r),
        None => false,
    };
    let active: Option<OtaRecord> = if b0 && b1 {
        if r1.unwrap().sequence >= r0.unwrap().sequence {
            r1
        } else {
            r0
        }
    } else if b0 {
        r0
    } else if b1 {
        r1
    } else {
        None
    };
    assert(active == active_record(r0, r1));
    let count = apps.len();
    let current: Option<usize> = match active {
        Some(record) => {
            if record.sequence < 1 {
                return false;
            }
            Some(((record.sequence - 1) as usize) % count)
        },
        None => if has_factory {
            None
        } else {
            Some(0)
        },
    };
    assert(current matches Some(c) ==> c == current_slot(active, has_factory, count as int)->0);
    if count == 1 && current.is_some() {
        return true;
    }
    let target_index: usize = match current {
        Some(index) => (index + 1) % count,
        None => 0,
    };
    assert(target_index == next_slot(current_slot(active, has_factory, count as int), count as int));
    assert(av[target_index as int] == apps@[target_index as int]@);
    if ensure_image_fits(&apps[target_index], image_size).is_err() {
        return true;
    }
    let max_sequence: u128 = match active {
        Some(record) => record.sequence as u128,
        None => 0,
    };
    let base: u128 = target_index as u128 + 1;
    let c: u128 = count as u128;
    let target_sequence: u128 = if base > max_sequence {
        base
    } else {
        proof {
            lemma_sequence_step_bound((max_sequence - base) as int, c as int);
        }
        base + ((max_sequence - base) / c + 1) * c
    };
    target_sequence <= u32::MAX as u128
}

/// `(d / c + 1) * c` is at most `d + c`.
proof fn lemma_sequence_step_bound(d: int, c: int)
    requires
        0 <= d,
        0 < c,
    ensures
        0 <= (d / c + 1) * c <= d + c,
{
    assert((d / c) * c <= d) by (nonlinear_arith)
        requires
            0 <= d,
            0 < c,
    ;
    assert((d / c + 1) * c == (d / c) * c + c) by (nonlinear_arith);
    assert(0 <= (d / c) * c) by (nonlinear_arith)
        requires
            0 <= d,
            0 < c,
    ;
}


proof fn lemma_first_of_kind_in(es: Seq<PartitionView>, kind: EntryKind)
    ensures
        first_of_kind(es, kind) matches Some(x) ==> exists|i: int| 0 <= i < es.len() && es[i] == x,
    decreases es.len(),
{
    if es.len() > 0 && !kind_matches(es[0], kind) {
        lemma_first_of_kind_in(es.drop_first(), kind);
        if first_of_kind(es, kind) is Some {
            let x = first_of_kind(es, kind)->0;
            let i = choose|i: int| 0 <= i < es.drop_first().len() && es.drop_first()[i] == x;
            assert(es[i + 1] == x);
        }
    } else if es.len() > 0 {
        assert(es[0] == first_of_kind(es, kind)->0);
    }
}

/// The sector an OTA switch overwrites lies inside the flash: the otadata
/// partition holds two sectors and ends within the flash.
pub proof fn lemma_switch_sector_within_flash(
    es: Seq<PartitionView>,
    otadata: Option<Seq<u8>>,
    flash_size: u64,
    image_size: u64,
    rollback_enabled: bool,
)
    requires
        spec_select_update_layout(es, otadata, flash_size, image_size, rollback_enabled) is Ok,
    ensures
        spec_select_update_layout(es, otadata, flash_size, image_size, rollback_enabled)->Ok_0 matches LayoutView::Ota {
            ota_data,
            switch,
            ..
        } ==> ota_data.offset + switch.metadata_sector * 0x1000 + 0x1000 <= flash_size,
        spec_select_update_layout(es, otadata, flash_size, image_size, rollback_enabled)->Ok_0 matches LayoutView::Ota {
            ota_data,
            switch,
            ..
        } ==> ota_data.offset + switch.metadata_sector * 0x1000 + 0x1000 <= ota_data.end()
            && es.contains(ota_data),
{
    reveal(spec_select_update_layout);
    lemma_first_of_kind_in(es, EntryKind::OtaData);
    if first_of_kind(es, EntryKind::OtaData) is Some {
        let od = first_of_kind(es, EntryKind::OtaData)->0;
        let i = choose|i: int| 0 <= i < es.len() && es[i] == od;
        assert(es[i].end() <= flash_size);
    }
}

proof fn lemma_sorted_ota_apps_len(es: Seq<PartitionView>)
    ensures
        sorted_ota_apps(es).len() <= es.len(),
    decreases es.len(),
{
    if es.len() > 0 {
        lemma_sorted_ota_apps_len(es.drop_last());
        lemma_insert_len(sorted_ota_apps(es.drop_last()), es.last());
    }
}

proof fn lemma_insert_len(s: Seq<PartitionView>, e: PartitionView)
    ensures
        insert_by_subtype(s, e).len() == s.len() + 1,
    decreases s.len(),
{
    if s.len() > 0 && s.last().subtype > e.subtype {
        lemma_insert_len(s.drop_last(), e);
    }
}


// ---------------------------------------------------------------------------
// Laws of the OTA switch
// ---------------------------------------------------------------------------

/// The new sequence lies above every sequence seen so far and, counted from
/// 1 modulo the number of slots, names the target slot.
pub proof fn lemma_next_sequence_selects_slot(target_index: int, count: int, max_sequence: int)
    requires
        0 <= target_index < count,
        0 <= max_sequence,
    ensures
        next_sequence(target_index, count, max_sequence) > max_sequence,
        next_sequence(target_index, count, max_sequence) >= 1,
        (next_sequence(target_index, count, max_sequence) - 1) % count == target_index,
{
    let base = target_index + 1;
    if base > max_sequence {
        vstd::arithmetic::div_mod::lemma_small_mod(target_index as nat, count as nat);
    } else {
        let q = (max_sequence - base) / count;
        vstd::arithmetic::div_mod::lemma_fundamental_div_mod(max_sequence - base, count);
        let r = (max_sequence - base) % count;
        assert(0 <= r < count) by {
            vstd::arithmetic::div_mod::lemma_mod_bound(max_sequence - base, count);
        }
        assert(max_sequence - base == count * q + r);
        assert((q + 1) * count == count * q + count) by (nonlinear_arith);
        assert(next_sequence(target_index, count, max_sequence) == base + (q + 1) * count);
        vstd::arithmetic::div_mod::lemma_mod_multiples_vanish(q + 1, target_index, count);
        vstd::arithmetic::div_mod::lemma_small_mod(target_index as nat, count as nat);
        assert((count * (q + 1) + target_index) % count == target_index % count);
        assert((q + 1) * count == count * (q + 1)) by (nonlinear_arith);
    }
}

/// The switch of an OTA layout.
pub open spec fn layout_switch(l: LayoutView) -> OtaSwitch {
    match l {
        LayoutView::Ota { switch, .. } => switch,
        LayoutView::InPlace { .. } => OtaSwitch {
            target_index: 0,
            target_sequence: 0,
            metadata_sector: 0,
            rollback_enabled: false,
        },
    }
}

/// The record that [`build_otadata_sector`] writes for a switch.
pub open spec fn written_record(switch: OtaSwitch) -> OtaRecord {
    OtaRecord {
        sequence: switch.target_sequence,
        state: switch_state(switch.rollback_enabled),
        crc: record_crc(switch.target_sequence),
    }
}

/// The two records after the written one replaces the chosen sector.
pub open spec fn records_after_switch(
    r0: Option<OtaRecord>,
    r1: Option<OtaRecord>,
    switch: OtaSwitch,
) -> (Option<OtaRecord>, Option<OtaRecord>) {
    if switch.metadata_sector == 0 {
        (Some(written_record(switch)), r1)
    } else {
        (r0, Some(written_record(switch)))
    }
}

/// An OTA switch never overwrites the record that is active, and once its
/// record is written the new record is the active one, it is no duplicate,
/// and it names the target slot: the bootloader starts the new image.
pub proof fn lemma_ota_switch_activates_target(
    apps: Seq<PartitionView>,
    has_factory: bool,
    ota_data: PartitionView,
    r0: Option<OtaRecord>,
    r1: Option<OtaRecord>,
    image_size: u64,
    rollback_enabled: bool,
)
    requires
        layout_from_records(apps, has_factory, ota_data, r0, r1, image_size, rollback_enabled) is Ok,
        layout_from_records(apps, has_factory, ota_data, r0, r1, image_size, rollback_enabled)->Ok_0 is Ota,
        records_arithmetic_ok(apps, has_factory, r0, r1, image_size),
        apps.len() > 0,
    ensures
        ({
            let switch = layout_switch(
                layout_from_records(apps, has_factory, ota_data, r0, r1, image_size, rollback_enabled)->Ok_0,
            );
            let after = records_after_switch(r0, r1, switch);
            &&& active_record(after.0, after.1) == Some(written_record(switch))
            &&& !duplicate_bootable(after.0, after.1)
            &&& (switch.target_sequence - 1) % (apps.len() as int) == switch.target_index
            &&& switch.target_sequence > max_active_sequence(active_record(r0, r1))
        }),
{
    let active = active_record(r0, r1);
    let count = apps.len() as int;
    let current = current_slot(active, has_factory, count);
    let ti = next_slot(current, count);
    assert(0 <= ti < count) by {
        if current is Some {
            let c = current->0;
            vstd::arithmetic::div_mod::lemma_mod_bound(c + 1, count);
        }
    }
    let max = max_active_sequence(active);
    lemma_next_sequence_selects_slot(ti, count, max);
    let switch = layout_switch(
        layout_from_records(apps, has_factory, ota_data, r0, r1, image_size, rollback_enabled)->Ok_0,
    );
    assert(switch.target_sequence == next_sequence(ti, count, max));
    let w = written_record(switch);
    assert(spec_record_bootable(w));
}

/// The sequence after `max_sequence` for a slot exceeds it by at most the
/// number of slots.
proof fn lemma_next_sequence_bound(target_index: int, count: int, max_sequence: int)
    requires
        0 <= target_index < count,
        0 <= max_sequence,
    ensures
        next_sequence(target_index, count, max_sequence) <= max_sequence + count,
{
    let base = target_index + 1;
    if base <= max_sequence {
        let q = (max_sequence - base) / count;
        vstd::arithmetic::div_mod::lemma_fundamental_div_mod(max_sequence - base, count);
        vstd::arithmetic::div_mod::lemma_mod_bound(max_sequence - base, count);
        assert((q + 1) * count == count * q + count) by (nonlinear_arith);
    }
}

/// The records of both sectors are bootable, where present.
pub open spec fn records_bootable(r0: Option<OtaRecord>, r1: Option<OtaRecord>) -> bool {
    &&& (r0 matches Some(x) ==> spec_record_bootable(x))
    &&& (r1 matches Some(x) ==> spec_record_bootable(x))
}

/// On the records: once an OTA switch is written, the next update targets
/// the following slot, with a greater sequence, in the other sector.
proof fn lemma_second_switch_records(
    apps: Seq<PartitionView>,
    has_factory: bool,
    ota_data: PartitionView,
    r0: Option<OtaRecord>,
    r1: Option<OtaRecord>,
    image_size: u64,
    rollback_enabled: bool,
)
    requires
        layout_from_records(apps, has_factory, ota_data, r0, r1, image_size, rollback_enabled) is Ok,
        layout_from_records(apps, has_factory, ota_data, r0, r1, image_size, rollback_enabled)->Ok_0 is Ota,
        records_arithmetic_ok(apps, has_factory, r0, r1, image_size),
        apps.len() >= 2,
        forall|i: int| 0 <= i < apps.len() ==> spec_ensure_image_fits(#[trigger] apps[i], image_size) is Ok,
        records_bootable(r0, r1),
        layout_switch(
            layout_from_records(apps, has_factory, ota_data, r0, r1, image_size, rollback_enabled)->Ok_0,
        ).target_sequence + apps.len() < u32::MAX,
    ensures
        ({
            let s = layout_switch(
                layout_from_records(apps, has_factory, ota_data, r0, r1, image_size, rollback_enabled)->Ok_0,
            );
            let after = records_after_switch(r0, r1, s);
            let next = layout_from_records(apps, has_factory, ota_data, after.0, after.1, image_size, rollback_enabled);
            &&& next is Ok
            &&& next->Ok_0 is Ota
            &&& layout_switch(next->Ok_0).target_index == (s.target_index + 1) % (apps.len() as int)
            &&& layout_switch(next->Ok_0).target_sequence > s.target_sequence
            &&& layout_switch(next->Ok_0).metadata_sector == 1 - s.metadata_sector
        }),
{
    lemma_ota_switch_activates_target(apps, has_factory, ota_data, r0, r1, image_size, rollback_enabled);
    let count = apps.len() as int;
    let active = active_record(r0, r1);
    let current = current_slot(active, has_factory, count);
    let ti = next_slot(current, count);
    assert(0 <= ti < count) by {
        if current is Some {
            vstd::arithmetic::div_mod::lemma_mod_bound(current->0 + 1, count);
        }
    }
    let s = layout_switch(
        layout_from_records(apps, has_factory, ota_data, r0, r1, image_size, rollback_enabled)->Ok_0,
    );
    assert(s.target_index == ti);
    let w = written_record(s);
    let after = records_after_switch(r0, r1, s);
    assert(active_record(after.0, after.1) == Some(w));
    let current2 = current_slot(Some(w), has_factory, count);
    assert(current2 == Some(ti as int));
    let ti2 = next_slot(current2, count);
    assert(0 <= ti2 < count) by {
        vstd::arithmetic::div_mod::lemma_mod_bound(ti + 1, count);
    }
    assert(spec_ensure_image_fits(apps[ti2], image_size) is Ok);
    lemma_next_sequence_selects_slot(ti2, count, w.sequence as int);
    lemma_next_sequence_bound(ti2, count, w.sequence as int);
    // every present record is bootable, so the new sequence exceeds both
    assert(r0 matches Some(x) ==> x.sequence <= max_active_sequence(active));
    assert(r1 matches Some(x) ==> x.sequence <= max_active_sequence(active));
}

/// The `otadata` bytes after an OTA switch: the chosen sector replaced by
/// the sector that [`build_otadata_sector`] writes.
pub open spec fn otadata_after_switch(raw: Seq<u8>, switch: OtaSwitch) -> Seq<u8> {
    let at = switch.metadata_sector * OTA_SECTOR_SIZE;
    raw.subrange(0, at as int) + spec_otadata_sector(switch) + raw.subrange(at + OTA_SECTOR_SIZE, raw.len() as int)
}

/// Two updates in a row alternate: after the first update's switch sector
/// is written over its `otadata`, the next update on the same device (with
/// at least two OTA slots that all fit the image, and no invalid or aborted
/// record) targets the following slot, with a greater sequence, and writes
/// the other sector.
pub proof fn lemma_second_update_alternates(
    es: Seq<PartitionView>,
    raw: Seq<u8>,
    flash_size: u64,
    image_size: u64,
    rollback_enabled: bool,
)
    requires
        spec_select_update_layout(es, Some(raw), flash_size, image_size, rollback_enabled) is Ok,
        spec_select_update_layout(es, Some(raw), flash_size, image_size, rollback_enabled)->Ok_0 is Ota,
        layout_arithmetic_ok(es, Some(raw), flash_size, image_size),
        sorted_ota_apps(es).len() >= 2,
        forall|i: int|
            0 <= i < sorted_ota_apps(es).len() ==> spec_ensure_image_fits(
                #[trigger] sorted_ota_apps(es)[i],
                image_size,
            ) is Ok,
        raw.len() >= 2 * OTA_SECTOR_SIZE ==> (spec_parse_ota_record(raw.subrange(0, 32)) matches Ok(r0)
            && spec_parse_ota_record(raw.subrange(0x1000, 0x1020)) matches Ok(r1) ==> records_bootable(r0, r1)),
        layout_switch(spec_select_update_layout(es, Some(raw), flash_size, image_size, rollback_enabled)->Ok_0).target_sequence
            + sorted_ota_apps(es).len() < u32::MAX,
    ensures
        ({
            let n = sorted_ota_apps(es).len() as int;
            let s = layout_switch(spec_select_update_layout(es, Some(raw), flash_size, image_size, rollback_enabled)->Ok_0);
            let next = spec_select_update_layout(
                es,
                Some(otadata_after_switch(raw, s)),
                flash_size,
                image_size,
                rollback_enabled,
            );
            &&& next is Ok
            &&& next->Ok_0 is Ota
            &&& layout_switch(next->Ok_0).target_index == (s.target_index + 1) % n
            &&& layout_switch(next->Ok_0).target_sequence > s.target_sequence
            &&& layout_switch(next->Ok_0).metadata_sector == 1 - s.metadata_sector
        }),
{
    reveal(spec_select_update_layout);
    reveal(layout_arithmetic_ok);
    let apps = sorted_ota_apps(es);
    let factory = first_of_kind(es, EntryKind::FactoryApp);
    let od = first_of_kind(es, EntryKind::OtaData)->0;
    let r0 = spec_parse_ota_record(raw.subrange(0, 32))->Ok_0;
    let r1 = spec_parse_ota_record(raw.subrange(0x1000, 0x1020))->Ok_0;
    let first = layout_from_records(apps, factory is Some, od, r0, r1, image_size, rollback_enabled);
    assert(spec_select_update_layout(es, Some(raw), flash_size, image_size, rollback_enabled) == first);
    lemma_second_switch_records(apps, factory is Some, od, r0, r1, image_size, rollback_enabled);
    let s = layout_switch(first->Ok_0);
    let raw2 = otadata_after_switch(raw, s);
    assert(s.metadata_sector == 0 || s.metadata_sector == 1);
    assert(s.target_sequence != 0xFFFF_FFFFu32);
    lemma_written_record_reads_back(s);
    let sector = spec_otadata_sector(s);
    assert(raw2.len() == raw.len());
    if s.metadata_sector == 0 {
        assert(raw2.subrange(0, 32) =~= sector.subrange(0, OTA_RECORD_SIZE as int));
        assert(raw2.subrange(0x1000, 0x1020) =~= raw.subrange(0x1000, 0x1020));
    } else {
        assert(raw2.subrange(0, 32) =~= raw.subrange(0, 32));
        assert(raw2.subrange(0x1000, 0x1020) =~= sector.subrange(0, OTA_RECORD_SIZE as int));
    }
    let after = records_after_switch(r0, r1, s);
    assert(spec_parse_ota_record(raw2.subrange(0, 32)) == Ok::<Option<OtaRecord>, Failure>(after.0));
    assert(spec_parse_ota_record(raw2.subrange(0x1000, 0x1020)) == Ok::<Option<OtaRecord>, Failure>(after.1));
}

proof fn lemma_first_of_kind_matches(es: Seq<PartitionView>, kind: EntryKind)
    ensures
        first_of_kind(es, kind) matches Some(x) ==> kind_matches(x, kind),
    decreases es.len(),
{
    if es.len() > 0 && !kind_matches(es[0], kind) {
        lemma_first_of_kind_matches(es.drop_first(), kind);
    }
}

/// On a device with blank `otadata` and no factory application partition
/// (type 0, subtype 0), the bootloader runs the first OTA slot, so an update
/// never goes there: with one OTA slot it is written in place, with two or
/// more it goes to the second slot with sequence 2.
pub proof fn lemma_blank_otadata_without_factory(
    es: Seq<PartitionView>,
    raw: Seq<u8>,
    flash_size: u64,
    image_size: u64,
    rollback_enabled: bool,
)
    requires
        spec_select_update_layout(es, Some(raw), flash_size, image_size, rollback_enabled) is Ok,
        forall|i: int| 0 <= i < es.len() ==> !((#[trigger] es[i]).partition_type == 0 && es[i].subtype == 0),
        forall|j: int| 0 <= j < raw.len() ==> raw[j] == 0xFF,
    ensures
        ({
            let layout = spec_select_update_layout(es, Some(raw), flash_size, image_size, rollback_enabled)->Ok_0;
            let apps = sorted_ota_apps(es);
            &&& apps.len() == 1 ==> layout is InPlace
            &&& apps.len() >= 2 ==> (layout matches LayoutView::Ota { target, switch, .. } && switch.target_index
                == 1 && switch.target_sequence == 2 && target == apps[1])
        }),
{
    reveal(spec_select_update_layout);
    lemma_first_of_kind_matches(es, EntryKind::FactoryApp);
    lemma_first_of_kind_in(es, EntryKind::FactoryApp);
    assert(first_of_kind(es, EntryKind::FactoryApp) is None);
    let apps = sorted_ota_apps(es);
    if apps.len() > 0 && raw.len() >= 2 * OTA_SECTOR_SIZE {
        assert(spec_parse_ota_record(raw.subrange(0, 32)) == Ok::<Option<OtaRecord>, Failure>(None));
        assert(spec_parse_ota_record(raw.subrange(0x1000, 0x1020)) == Ok::<Option<OtaRecord>, Failure>(None));
        if apps.len() >= 2 {
            assert(1int % (apps.len() as int) == 1) by {
                vstd::arithmetic::div_mod::lemma_small_mod(1nat, apps.len() as nat);
            }
        }
    }
}

proof fn lemma_label_len(s: Seq<u8>)
    ensures
        label_len(s) <= s.len(),
        forall|j: int| 0 <= j < label_len(s) ==> #[trigger] s[j] != 0 && s[j] != 0xFF,
        label_len(s) < s.len() ==> (s[label_len(s) as int] == 0 || s[label_len(s) as int] == 0xFF),
    decreases s.len(),
{
    if s.len() > 0 && s[0] != 0 && s[0] != 0xFF {
        lemma_label_len(s.drop_first());
        assert forall|j: int| 0 <= j < label_len(s) implies #[trigger] s[j] != 0 && s[j] != 0xFF by {
            if j > 0 {
                assert(s[j] == s.drop_first()[j - 1]);
            }
        }
    }
}

/// The label bytes of row `k`: the `n` bytes of its 16-byte label field
/// before the first 0x00 or 0xFF byte (or the whole field), read as UTF-8.
pub open spec fn label_of_row(bytes: Seq<u8>, k: int, n: int, label: Seq<char>) -> bool {
    let at = 32 * k + 12;
    &&& 0 <= k && 32 * k + 32 <= bytes.len()
    &&& 0 <= n <= 16
    &&& forall|j: int| at <= j < at + n ==> #[trigger] bytes[j] != 0 && bytes[j] != 0xFF
    &&& (n == 16 || bytes[at + n] == 0 || bytes[at + n] == 0xFF)
    &&& valid_utf8(bytes.subrange(at, at + n))
    &&& label == decode_utf8(bytes.subrange(at, at + n))
}

/// UTF-8 without a 0x00 byte decodes to text without the character U+0000.
proof fn lemma_decode_without_nul(b: Seq<u8>)
    requires
        valid_utf8(b),
        forall|j: int| 0 <= j < b.len() ==> #[trigger] b[j] != 0,
    ensures
        forall|k: int| 0 <= k < decode_utf8(b).len() ==> #[trigger] decode_utf8(b)[k] != '\0',
    decreases b.len(),
{
    if b.len() > 0 {
        vstd::utf8::decode_utf8_first_scalar(b);
        let c = vstd::utf8::decode_first_scalar(b) as char;
        if c == '\0' {
            assert((c as u32) == 0);
            assert(((0u32 & 0x7Fu32) as u8) == 0u8) by (bit_vector);
            assert(vstd::utf8::encode_scalar(0) =~= seq![0u8]);
            assert(vstd::utf8::take_first_scalar(b)[0] == b[0]);
            assert(false);
        }
        let rest = vstd::utf8::pop_first_scalar(b);
        assert forall|j: int| 0 <= j < rest.len() implies #[trigger] rest[j] != 0 by {
            assert(rest[j] == b[j + vstd::utf8::length_of_first_scalar(b)]);
        }
        lemma_decode_without_nul(rest);
        let d = decode_utf8(b);
        assert(d == seq![c] + decode_utf8(rest));
        assert forall|k: int| 0 <= k < d.len() implies #[trigger] d[k] != '\0' by {
            if k > 0 {
                assert(d[k] == decode_utf8(rest)[k - 1]);
            }
        }
    }
}

/// The label is read from some row of the table.
pub open spec fn label_from_some_row(bytes: Seq<u8>, label: Seq<char>) -> bool {
    exists|r: int, n: int| label_of_row(bytes, r, n, label)
}

/// Every entry's label is read from some row of the table.
pub open spec fn labels_from_rows(bytes: Seq<u8>, es: Seq<PartitionView>) -> bool {
    forall|i: int| 0 <= i < es.len() ==> label_from_some_row(bytes, (#[trigger] es[i]).label)
}

proof fn lemma_scan_labels(bytes: Seq<u8>, k: nat)
    requires
        32 * k <= bytes.len(),
    ensures
        scan_rows(bytes, k) matches RowScan::Open(acc) ==> labels_from_rows(bytes, acc),
        scan_rows(bytes, k) matches RowScan::Closed(acc) ==> labels_from_rows(bytes, acc),
    decreases k,
{
    if k > 0 {
        lemma_scan_labels(bytes, (k - 1) as nat);
        match scan_rows(bytes, (k - 1) as nat) {
            RowScan::Open(acc) => {
                assert(scan_rows(bytes, k) == row_step(bytes, k - 1, acc));
                let base = 32 * (k - 1);
                let field = bytes.subrange(base + 12, base + 28);
                let len = label_len(field);
                lemma_label_len(field);
                if let RowScan::Open(acc2) = row_step(bytes, k - 1, acc) {
                    assert(acc2 == acc.push(acc2.last()));
                    assert(field.take(len as int) =~= bytes.subrange(base + 12, base + 12 + len));
                    assert forall|j: int| base + 12 <= j < base + 12 + len implies #[trigger] bytes[j] != 0
                        && bytes[j] != 0xFF by {
                        assert(bytes[j] == field[j - base - 12]);
                    }
                    if len < 16 {
                        assert(bytes[base + 12 + len] == field[len as int]);
                    }
                    assert(valid_utf8(field.take(len as int)));
                    assert(label_of_row(bytes, k - 1, len as int, acc2.last().label));
                    assert forall|i: int| 0 <= i < acc2.len() implies label_from_some_row(
                        bytes,
                        (#[trigger] acc2[i]).label,
                    ) by {
                        if i < acc.len() {
                            assert(acc2[i] == acc[i]);
                        } else {
                            assert(acc2[i] == acc2.last());
                            assert(label_of_row(bytes, k - 1, len as int, acc2[i].label));
                        }
                    }
                    assert(labels_from_rows(bytes, acc2));
                }
            },
            _ => {
                assert(scan_rows(bytes, k) == scan_rows(bytes, (k - 1) as nat));
            },
        }
    } else {
        assert(labels_from_rows(bytes, Seq::<PartitionView>::empty()));
    }
}

/// A parsed label is the text of its row's label field up to the first 0x00
/// or 0xFF byte: the bytes it decodes are all other bytes, and the field
/// ends, or holds 0x00 or 0xFF, just after them. So padding never becomes
/// part of a label: a field "nvs" followed by 0x00 bytes reads as "nvs", and
/// no label holds the character U+0000.
pub proof fn lemma_parsed_labels_stop_at_padding(bytes: Seq<u8>)
    ensures
        spec_parse_partition_table(bytes) matches Ok(es) ==> labels_from_rows(bytes, es),
        spec_parse_partition_table(bytes) matches Ok(es) ==> forall|i: int, k: int|
            0 <= i < es.len() && 0 <= k < es[i].label.len() ==> #[trigger] es[i].label[k] != '\0',
{
    if bytes.len() >= 32 && bytes.len() % 32 == 0 {
        lemma_scan_labels(bytes, (bytes.len() / 32) as nat);
    }
    if spec_parse_partition_table(bytes) is Ok {
        let es = spec_parse_partition_table(bytes)->Ok_0;
        assert forall|i: int, k: int| 0 <= i < es.len() && 0 <= k < es[i].label.len() implies #[trigger] es[i].label[k]
            != '\0' by {
            assert(label_from_some_row(bytes, es[i].label));
            let (r, n) = choose|r: int, n: int| label_of_row(bytes, r, n, es[i].label);
            let at = 32 * r + 12;
            let b = bytes.subrange(at, at + n);
            assert forall|j: int| 0 <= j < b.len() implies #[trigger] b[j] != 0 by {
                assert(b[j] == bytes[at + j]);
            }
            lemma_decode_without_nul(b);
        }
    }
}

} // verus!
