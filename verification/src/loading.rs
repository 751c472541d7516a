use vstd::prelude::*;
use crate::digest::{sha256_digest, sha256_of};
use crate::error::{ErrorCode, Failure, OperationError, Result, error_code_name, fails_as};
use crate::image::{spec_validate_esp_image, validate_esp_image};
use crate::ota::{
    EntryKind, PartitionEntry, PartitionView, entries_view, find_first, first_of_kind,
    parse_partition_table, select_factory_application, spec_parse_partition_table,
    spec_select_factory_application,
};
use crate::manifest::{
    all_chips, chip_bootloader_address, ChipFamily, FirmwareManifest, FirmwareSegment, HexAddress, ManifestView, MonitorPolicy,
    OtaPolicy, PackageKind, SegmentRole, SegmentView, package_id_byte, segments_view,
    spec_is_package_id, spec_validate_structure,
};
use crate::package::{
    FirmwareSource, PackageReader, PackageSummary, ValidatedPackage, MAX_PACKAGE_BYTES, summarizes,
    MAX_SEGMENT_BYTES, check_segment_bytes, invalid_path_failure, relative_path_ok,
    spec_check_segment_bytes, validate_relative_path,
};
use crate::text::{
    ascii_chars, ascii_to_string, chars_of, hex_lower, is_blank, is_white_space,
    lemma_hex_lower_len, to_hex_lower, ascii_lower, comma_join, eq_ignore_ascii_case, join_comma,
    strings_view, eq_ascii_lower,
};

verus! {

pub const DIRECT_PARTITION_TABLE_OFFSET: u32 = 0x8000;
pub const DEFAULT_MONITOR_BAUD: u32 = 115_200;
pub const DEFAULT_SUCCESS_TIMEOUT_MS: u64 = 15_000;
pub const GENERATED_OTADATA_FILE: &'static str = "_programmer_otadata.bin";

/// The files of a package snapshot as plain values: name and bytes.
pub open spec fn files_view(files: Seq<(String, Vec<u8>)>) -> Seq<(Seq<char>, Seq<u8>)> {
    files.map_values(|f: (String, Vec<u8>)| (f.0@, f.1@))
}

/// The bytes of the first file with this name.
pub open spec fn file_lookup(files: Seq<(Seq<char>, Seq<u8>)>, name: Seq<char>) -> Option<Seq<u8>>
    decreases files.len(),
{
    if files.len() == 0 {
        None
    } else if files[0].0 == name {
        Some(files[0].1)
    } else {
        file_lookup(files.drop_first(), name)
    }
}

/// Finds the first file with this name.
pub fn find_file(files: &[(String, Vec<u8>)], name: &str) -> (r: Option<usize>)
    ensures
        match r {
            Some(i) => i < files@.len() && file_lookup(files_view(files@), name@) == Some(
                files@[i as int].1@,
            ) && files@[i as int].0@ == name@,
            None => file_lookup(files_view(files@), name@) is None,
        },
{
    let ghost fv = files_view(files@);
    let key = String::from_str(name);
    let mut i: usize = 0;
    assert(fv.skip(0) =~= fv);
    while i < files.len()
        invariant
            fv == files_view(files@),
            key@ == name@,
            i <= fv.len(),
            file_lookup(fv, name@) == file_lookup(fv.skip(i as int), name@),
        decreases fv.len() - i,
    {
        assert(fv.skip(i as int)[0] == fv[i as int]);
        if files[i].0 == key {
            return Some(i);
        }
        assert(fv.skip(i as int).drop_first() =~= fv.skip(i + 1));
        i = i + 1;
    }
    assert(fv.skip(i as int).len() == 0);
    None
}

/// Serves BIN files from a snapshot taken in memory.
#[derive(Debug)]
pub struct MemoryPackageReader<'a> {
    pub files: &'a Vec<(String, Vec<u8>)>,
}

impl<'a> PackageReader for MemoryPackageReader<'a> {
    /// The snapshot's first file with that name, or `PackageFileMissing`
    /// naming the path; the limit plays no part.
    open spec fn reads_as(&self, relative_path: Seq<char>, max_bytes: u64, r: Result<Vec<u8>>) -> bool {
        match file_lookup(files_view(self.files@), relative_path) {
            Some(b) => r matches Ok(v) && v@ == b,
            None => r matches Err(e) && fails_as(
                e,
                (ErrorCode::PackageFileMissing, "BIN отсутствует в снимке папки"@),
            ) && (e.detail matches Some(d) && d@ == relative_path),
        }
    }

    fn read_file(&self, relative_path: &str, max_bytes: u64) -> (r: Result<Vec<u8>>)
        ensures
            match file_lookup(files_view(self.files@), relative_path@) {
                Some(b) => r matches Ok(v) && v@ == b,
                None => r matches Err(e) && fails_as(
                    e,
                    (ErrorCode::PackageFileMissing, "BIN отсутствует в снимке папки"@),
                ) && (e.detail matches Some(d) && d@ == relative_path@),
            },
    {
        match find_file(self.files.as_slice(), relative_path) {
            Some(i) => Ok(self.files[i].1.clone()),
            None => Err(
                OperationError::new(
                    ErrorCode::PackageFileMissing,
                    "BIN отсутствует в снимке папки",
                ).with_detail(String::from_str(relative_path)),
            ),
        }
    }
}

/// The checks of a package whose files are in memory, segment by segment:
/// the path, the size, the running total, the file's presence, and its bytes.
pub open spec fn spec_snapshot_segments(
    segs: Seq<SegmentView>,
    files: Seq<(Seq<char>, Seq<u8>)>,
    chips: Seq<ChipFamily>,
    total: int,
) -> core::result::Result<int, Failure>
    decreases segs.len(),
{
    if segs.len() == 0 {
        Ok(total)
    } else {
        let s = segs[0];
        if !relative_path_ok(s.file) {
            Err(invalid_path_failure())
        } else if s.size > MAX_SEGMENT_BYTES {
            Err((ErrorCode::PackageInvalid, "Сегмент превышает допустимый размер"@))
        } else if total + s.size > MAX_PACKAGE_BYTES {
            Err((ErrorCode::PackageInvalid, "Суммарный размер пакета превышает допустимый"@))
        } else {
            match file_lookup(files, s.file) {
                None => Err((ErrorCode::PackageFileMissing, "BIN отсутствует в снимке папки"@)),
                Some(b) => match spec_check_segment_bytes(s, b, chips) {
                    Err(f) => Err(f),
                    Ok(_) => spec_snapshot_segments(segs.drop_first(), files, chips, total + s.size),
                },
            }
        }
    }
}

/// A manifest checked against files in memory: its structure, then its
/// segments; the result is the total size.
pub open spec fn spec_validate_snapshot(m: ManifestView, files: Seq<(Seq<char>, Seq<u8>)>) -> core::result::Result<int, Failure> {
    match spec_validate_structure(m) {
        Err(f) => Err(f),
        Ok(_) => spec_snapshot_segments(m.segments, files, m.target_chips, 0),
    }
}

proof fn lemma_snapshot_segments_match(
    segs: Seq<SegmentView>,
    files: Seq<(Seq<char>, Seq<u8>)>,
    chips: Seq<ChipFamily>,
    total: int,
)
    requires
        spec_snapshot_segments(segs, files, chips, total) is Ok,
    ensures
        forall|i: int|
            0 <= i < segs.len() ==> (file_lookup(files, (#[trigger] segs[i]).file) matches Some(b)
                && spec_check_segment_bytes(segs[i], b, chips) is Ok),
    decreases segs.len(),
{
    if segs.len() > 0 {
        let s = segs[0];
        let b = file_lookup(files, s.file)->0;
        lemma_snapshot_segments_match(segs.drop_first(), files, chips, total + s.size);
        assert forall|i: int| 0 <= i < segs.len() implies (file_lookup(files, (#[trigger] segs[i]).file) matches Some(b)
            && spec_check_segment_bytes(segs[i], b, chips) is Ok) by {
            if i > 0 {
                assert(segs[i] == segs.drop_first()[i - 1]);
            }
        }
    }
}

/// Every segment of a package that loaded is in the package's snapshot, and
/// the bytes there have the segment's size and SHA-256 (and, for the
/// application, an image for a target chip): what [`LoadedPackage::segment_bytes`]
/// hands out for a segment's file is what the manifest describes.
pub proof fn lemma_loaded_segment_bytes(m: ManifestView, files: Seq<(Seq<char>, Seq<u8>)>)
    requires
        spec_validate_snapshot(m, files) is Ok,
    ensures
        forall|i: int|
            0 <= i < m.segments.len() ==> (file_lookup(files, (#[trigger] m.segments[i]).file) matches Some(b) && {
                &&& b.len() == m.segments[i].size
                &&& hex_lower(sha256_digest(b)) == m.segments[i].sha256
                &&& spec_check_segment_bytes(m.segments[i], b, m.target_chips) is Ok
            }),
{
    lemma_snapshot_segments_match(m.segments, files, m.target_chips, 0);
}

/// Checks a manifest against the files of a snapshot.
#[verifier::loop_isolation(false)]
pub fn validate_snapshot(manifest: FirmwareManifest, files: &[(String, Vec<u8>)]) -> (r: Result<ValidatedPackage>)
    ensures
        match spec_validate_snapshot(manifest@, files_view(files@)) {
            Ok(total) => r matches Ok(p) && p.manifest == manifest && p.total_bytes == total,
            Err(f) => r matches Err(e) && fails_as(e, f),
        },
{
    manifest.validate_structure()?;
    let ghost segs = manifest@.segments;
    let ghost fv = files_view(files@);
    let mut total: u64 = 0;
    let mut i: usize = 0;
    assert(segs.skip(0) =~= segs);
    while i < manifest.segments.len()
        invariant
            segs == segments_view(manifest.segments@),
            i <= segs.len(),
            total <= MAX_PACKAGE_BYTES,
            spec_validate_snapshot(manifest@, fv) == spec_snapshot_segments(
                segs.skip(i as int),
                fv,
                manifest.target_chips@,
                total as int,
            ),
        decreases segs.len() - i,
    {
        let segment = &manifest.segments[i];
        assert(segs.skip(i as int)[0] == segs[i as int]);
        assert(segs.skip(i as int).drop_first() =~= segs.skip(i + 1));
        validate_relative_path(segment.file.as_str())?;
        if segment.size > MAX_SEGMENT_BYTES {
            return Err(
                OperationError::new(
                    ErrorCode::PackageInvalid,
                    "Сегмент превышает допустимый размер",
                ).with_detail(segment.file.clone()),
            );
        }
        if segment.size > MAX_PACKAGE_BYTES - total {
            return Err(
                OperationError::new(
                    ErrorCode::PackageInvalid,
                    "Суммарный размер пакета превышает допустимый",
                ),
            );
        }
        total = total + segment.size;
        let index = match find_file(files, segment.file.as_str()) {
            Some(index) => index,
            None => {
                return Err(
                    OperationError::new(
                        ErrorCode::PackageFileMissing,
                        "BIN отсутствует в снимке папки",
                    ).with_detail(segment.file.clone()),
                );
            },
        };
        check_segment_bytes(segment, files[index].1.as_slice(), manifest.target_chips.as_slice())?;
        i = i + 1;
    }
    assert(segs.skip(i as int).len() == 0);
    Ok(ValidatedPackage { manifest, total_bytes: total })
}

// ---------------------------------------------------------------------------
// Loaded packages
// ---------------------------------------------------------------------------

/// A checked package together with the bytes of its files, as read once from
/// the selected folder or file.
#[derive(Debug)]
pub struct LoadedPackage {
    pub validated: ValidatedPackage,
    pub source: FirmwareSource,
    pub device_partition_table_offset: Option<u32>,
    pub files: Vec<(String, Vec<u8>)>,
}

impl LoadedPackage {
    /// The files the package was read with: name and bytes.
    pub open spec fn snapshot(&self) -> Seq<(Seq<char>, Seq<u8>)> {
        files_view(self.files@)
    }

    /// The bytes of a file of the package.
    pub fn segment_bytes(&self, file: &str) -> (r: Result<&[u8]>)
        ensures
            match file_lookup(self.snapshot(), file@) {
                Some(b) => r matches Ok(x) && x@ == b,
                None => r matches Err(e) && fails_as(
                    e,
                    (ErrorCode::PackageFileMissing, "Проверенный BIN отсутствует в снимке папки"@),
                ) && (e.detail matches Some(d) && d@ == file@),
            },
    {
        match find_file(self.files.as_slice(), file) {
            Some(i) => Ok(self.files[i].1.as_slice()),
            None => Err(
                OperationError::new(
                    ErrorCode::PackageFileMissing,
                    "Проверенный BIN отсутствует в снимке папки",
                ).with_detail(String::from_str(file)),
            ),
        }
    }

    /// The summary of the package with its own source; an update needs the
    /// device's layout unless the package names the partition table offset.
    pub fn summary(&self) -> (s: PackageSummary)
        ensures
            summarizes(s, self.validated),
            s.source == self.source,
            s.requires_device_layout == (self.validated.manifest.kind == PackageKind::Update
                && self.device_partition_table_offset is None),
    {
        let mut s = PackageSummary::from_validated(&self.validated);
        s.source = self.source;
        s.requires_device_layout = self.validated.manifest.kind == PackageKind::Update
            && self.device_partition_table_offset.is_none();
        s
    }
}

/// Some segment names this file.
pub open spec fn names_segment(segs: Seq<SegmentView>, name: Seq<char>) -> bool {
    exists|i: int| 0 <= i < segs.len() && (#[trigger] segs[i]).file == name
}

/// The files that some segment names, in their order.
pub open spec fn named_only(segs: Seq<SegmentView>, files: Seq<(Seq<char>, Seq<u8>)>) -> Seq<(Seq<char>, Seq<u8>)>
    decreases files.len(),
{
    if files.len() == 0 {
        Seq::empty()
    } else if names_segment(segs, files[0].0) {
        seq![files[0]] + named_only(segs, files.drop_first())
    } else {
        named_only(segs, files.drop_first())
    }
}

/// Looking a file up among the named files finds what the whole list
/// holds for a segment's file, and nothing for any other name.
pub proof fn lemma_named_only_lookup(segs: Seq<SegmentView>, files: Seq<(Seq<char>, Seq<u8>)>, name: Seq<char>)
    ensures
        file_lookup(named_only(segs, files), name) == if names_segment(segs, name) {
            file_lookup(files, name)
        } else {
            None
        },
    decreases files.len(),
{
    if files.len() > 0 {
        lemma_named_only_lookup(segs, files.drop_first(), name);
        if names_segment(segs, files[0].0) {
            let kept = seq![files[0]] + named_only(segs, files.drop_first());
            assert(kept[0] == files[0]);
            assert(kept.drop_first() =~= named_only(segs, files.drop_first()));
        }
    }
}

/// Keeps the files that some segment names, in their order.
pub fn keep_named(files: &Vec<(String, Vec<u8>)>, segments: &Vec<FirmwareSegment>) -> (r: Vec<(String, Vec<u8>)>)
    ensures
        files_view(r@) == named_only(segments_view(segments@), files_view(files@)),
{
    let ghost segs = segments_view(segments@);
    let ghost fv = files_view(files@);
    let mut r: Vec<(String, Vec<u8>)> = Vec::new();
    let mut i: usize = 0;
    assert(fv.skip(0) =~= fv);
    while i < files.len()
        invariant
            segs == segments_view(segments@),
            fv == files_view(files@),
            i <= fv.len(),
            files_view(r@) + named_only(segs, fv.skip(i as int)) == named_only(segs, fv),
        decreases fv.len() - i,
    {
        let mut named = false;
        let mut k: usize = 0;
        while k < segments.len()
            invariant
                segs == segments_view(segments@),
                fv == files_view(files@),
                i < fv.len(),
                k <= segs.len(),
                named == exists|j: int| 0 <= j < k && (#[trigger] segs[j]).file == fv[i as int].0,
            decreases segs.len() - k,
        {
            assert(segs[k as int] == segments@[k as int]@);
            if segments[k].file == files[i].0 {
                named = true;
            }
            k = k + 1;
        }
        let ghost rest = fv.skip(i as int);
        assert(rest[0] == fv[i as int]);
        assert(rest.drop_first() =~= fv.skip(i + 1));
        if named {
            let ghost before = files_view(r@);
            r.push((files[i].0.clone(), files[i].1.clone()));
            assert(files_view(r@) =~= before.push(fv[i as int]));
            assert(before.push(fv[i as int]) + named_only(segs, fv.skip(i + 1)) =~= before + (seq![fv[i as int]]
                + named_only(segs, fv.skip(i + 1))));
        }
        i = i + 1;
    }
    assert(fv.skip(i as int) =~= Seq::<(Seq<char>, Seq<u8>)>::empty());
    assert(files_view(r@) + Seq::<(Seq<char>, Seq<u8>)>::empty() =~= files_view(r@));
    r
}

/// A loaded package hands out bytes exactly for the files its segments
/// name; for each segment those bytes have its size and SHA-256 (and, for
/// the application, an image for a target chip).
pub proof fn lemma_loaded_package_files(m: ManifestView, files: Seq<(Seq<char>, Seq<u8>)>, name: Seq<char>)
    requires
        spec_validate_snapshot(m, files) is Ok,
    ensures
        file_lookup(named_only(m.segments, files), name) is Some <==> names_segment(m.segments, name),
        forall|i: int|
            0 <= i < m.segments.len() && (#[trigger] m.segments[i]).file == name ==> (file_lookup(
                named_only(m.segments, files),
                name,
            ) matches Some(b) && {
                &&& b.len() == m.segments[i].size
                &&& hex_lower(sha256_digest(b)) == m.segments[i].sha256
                &&& spec_check_segment_bytes(m.segments[i], b, m.target_chips) is Ok
            }),
{
    lemma_named_only_lookup(m.segments, files, name);
    lemma_loaded_segment_bytes(m, files);
    if names_segment(m.segments, name) {
        let i = choose|i: int| 0 <= i < m.segments.len() && (#[trigger] m.segments[i]).file == name;
        assert(file_lookup(files, m.segments[i].file) is Some);
    }
}

/// What loading a package gives: the checked package with the given source,
/// device offset and those of the files that its segments name, when the
/// manifest passes against the files; the first failure otherwise.
pub open spec fn loaded_as(
    r: Result<LoadedPackage>,
    m: ManifestView,
    files: Seq<(Seq<char>, Seq<u8>)>,
    source: FirmwareSource,
    device_offset: Option<u32>,
) -> bool {
    match spec_validate_snapshot(m, files) {
        Ok(total) => r matches Ok(p) && p.validated.manifest@ == m && p.validated.total_bytes
            == total && p.source == source && p.device_partition_table_offset == device_offset
            && p.snapshot() == named_only(m.segments, files),
        Err(f) => r matches Err(e) && fails_as(e, f),
    }
}

/// A package described by `firmware.json`: its manifest checked against the
/// files read for its segments. An update names its partition table offset.
pub fn load_legacy_from(manifest: FirmwareManifest, files: Vec<(String, Vec<u8>)>) -> (r: Result<LoadedPackage>)
    ensures
        loaded_as(
            r,
            manifest@,
            files_view(files@),
            FirmwareSource::LegacyManifest,
            if manifest.kind == PackageKind::Update {
                Some(manifest.partition_table_offset.0)
            } else {
                None
            },
        ),
{
    let validated = validate_snapshot(manifest, files.as_slice())?;
    let device_partition_table_offset = if validated.manifest.kind == PackageKind::Update {
        Some(validated.manifest.partition_table_offset.0)
    } else {
        None
    };
    let files = keep_named(&files, &validated.manifest.segments);
    Ok(LoadedPackage {
        validated,
        source: FirmwareSource::LegacyManifest,
        device_partition_table_offset,
        files,
    })
}

// ---------------------------------------------------------------------------
// Packages without a manifest
// ---------------------------------------------------------------------------

/// A segment as its bytes describe it: their size and SHA-256 in lower-case
/// hexadecimal.
pub open spec fn segment_view(role: SegmentRole, file: Seq<char>, offset: Option<u32>, bytes: Seq<u8>) -> SegmentView {
    SegmentView {
        role,
        file,
        offset,
        size: bytes.len() as u64,
        sha256: hex_lower(sha256_digest(bytes)),
    }
}

/// Describes a file as a segment with the given role and offset.
pub fn segment(role: SegmentRole, file: &str, offset: Option<u32>, bytes: &[u8]) -> (s: FirmwareSegment)
    ensures
        s@ == segment_view(role, file@, offset, bytes@),
        s.sha256@.len() == 64,
{
    let digest = sha256_of(bytes);
    proof {
        lemma_hex_lower_len(digest@);
    }
    FirmwareSegment {
        role,
        file: String::from_str(file),
        offset: match offset {
            Some(a) => Some(HexAddress(a)),
            None => None,
        },
        size: bytes.len() as u64,
        sha256: to_hex_lower(digest.as_slice()),
    }
}

/// The index of the last `.` of a text.
pub open spec fn last_dot(s: Seq<char>) -> Option<int>
    decreases s.len(),
{
    if s.len() == 0 {
        None
    } else if s.last() == '.' {
        Some(s.len() - 1)
    } else {
        last_dot(s.drop_last())
    }
}

/// A file name without its extension, as `Path::file_stem` gives it for a
/// plain file name: the text before the last `.`, unless that dot opens
/// the name.
pub open spec fn file_stem(name: Seq<char>) -> Seq<char> {
    match last_dot(name) {
        Some(i) => if i > 0 {
            name.take(i)
        } else {
            name
        },
        None => name,
    }
}

proof fn lemma_last_dot(s: Seq<char>)
    ensures
        last_dot(s) matches Some(i) ==> 0 <= i < s.len(),
    decreases s.len(),
{
    if s.len() > 0 {
        lemma_last_dot(s.drop_last());
    }
}

pub fn stem_of(name: &str) -> (s: String)
    ensures
        s@ == file_stem(name@),
{
    let c = chars_of(name);
    let mut found: Option<usize> = None;
    let mut k: usize = 0;
    while k < c.len()
        invariant
            c@ == name@,
            k <= c@.len(),
            match found {
                Some(j) => last_dot(name@.take(k as int)) == Some(j as int),
                None => last_dot(name@.take(k as int)) is None,
            },
        decreases c@.len() - k,
    {
        proof {
            assert(name@.take(k + 1).drop_last() =~= name@.take(k as int));
        }
        if c[k] == '.' {
            found = Some(k);
        }
        k = k + 1;
    }
    assert(name@.take(k as int) =~= name@);
    proof {
        lemma_last_dot(name@);
    }
    match found {
        Some(j) => if j > 0 {
            String::from_str(name.substring_char(0, j))
        } else {
            String::from_str(name)
        },
        None => String::from_str(name),
    }
}

/// The first application segment.
pub open spec fn first_application(segs: Seq<SegmentView>) -> Option<SegmentView>
    decreases segs.len(),
{
    if segs.len() == 0 {
        None
    } else if segs[0].role == SegmentRole::Application {
        Some(segs[0])
    } else {
        first_application(segs.drop_first())
    }
}

/// Whether a text holds only white space, as `str::trim` sees it.
pub open spec fn blank(s: Seq<char>) -> bool {
    forall|i: int| 0 <= i < s.len() ==> is_white_space(#[trigger] s[i])
}

/// The display name of a package without a manifest: the application's file
/// stem for a single BIN, the folder's name otherwise; `Firmware` when that
/// is missing or blank.
pub open spec fn direct_display_name(source: FirmwareSource, folder_name: Option<Seq<char>>, application_file: Seq<char>) -> Seq<char> {
    let hint = match source {
        FirmwareSource::Standalone => Some(file_stem(application_file)),
        _ => folder_name,
    };
    match hint {
        Some(h) => if blank(h) {
            "Firmware"@
        } else {
            h
        },
        None => "Firmware"@,
    }
}

/// The manifest given to a package without one: schema 1, an id derived
/// from the display name, the version `sha256-` and the first 12 digits of
/// the application's SHA-256, one chip, the default monitor policy with no
/// marker, and no rollback.
pub open spec fn direct_manifest(
    kind: PackageKind,
    chip: ChipFamily,
    partition_table_offset: u32,
    display_name: Seq<char>,
    application_sha256: Seq<char>,
    segments: Seq<SegmentView>,
) -> ManifestView {
    ManifestView {
        schema_version: 1,
        package_id: spec_package_id(display_name),
        display_name,
        firmware_version: "sha256-"@ + application_sha256.take(12),
        kind,
        target_chips: seq![chip],
        partition_table_offset,
        monitor_baud: DEFAULT_MONITOR_BAUD,
        success_marker: Seq::empty(),
        success_timeout_ms: DEFAULT_SUCCESS_TIMEOUT_MS,
        rollback_enabled: false,
        segments,
    }
}

/// Gives a package without a manifest its manifest and checks it against
/// the files.
pub fn finish_direct(
    kind: PackageKind,
    source: FirmwareSource,
    chip: ChipFamily,
    folder_name: Option<String>,
    partition_table_offset: u32,
    segments: Vec<FirmwareSegment>,
    files: Vec<(String, Vec<u8>)>,
    device_partition_table_offset: Option<u32>,
) -> (r: Result<LoadedPackage>)
    requires
        first_application(segments_view(segments@)) matches Some(a) && a.sha256.len() >= 12,
    ensures
        ({
            let a = first_application(segments_view(segments@)).unwrap();
            let folder = match folder_name {
                Some(n) => Some(n@),
                None => None,
            };
            let m = direct_manifest(
                kind,
                chip,
                partition_table_offset,
                direct_display_name(source, folder, a.file),
                a.sha256,
                segments_view(segments@),
            );
            loaded_as(r, m, files_view(files@), source, device_partition_table_offset)
        }),
{
    let ghost segs = segments_view(segments@);
    let mut i: usize = 0;
    assert(segs.skip(0) =~= segs);
    while i < segments.len() && segments[i].role != SegmentRole::Application
        invariant
            segs == segments_view(segments@),
            i <= segs.len(),
            first_application(segs) == first_application(segs.skip(i as int)),
        decreases segs.len() - i,
    {
        assert(segs.skip(i as int)[0] == segs[i as int]);
        assert(segs.skip(i as int).drop_first() =~= segs.skip(i + 1));
        i = i + 1;
    }
    if i == segments.len() {
        assert(segs.skip(i as int).len() == 0);
        assert(false);
    }
    assert(segs.skip(i as int)[0] == segs[i as int]);
    let application = &segments[i];
    let hint = match source {
        FirmwareSource::Standalone => Some(stem_of(application.file.as_str())),
        _ => folder_name,
    };
    let display_name = match hint {
        Some(h) => if is_blank(h.as_str()) {
            String::from_str("Firmware")
        } else {
            h
        },
        None => String::from_str("Firmware"),
    };
    let mut firmware_version = String::from_str("sha256-");
    firmware_version.append(application.sha256.as_str().substring_char(0, 12));
    let manifest = FirmwareManifest {
        schema_version: 1,
        package_id: package_id(display_name.as_str()),
        display_name,
        firmware_version,
        kind,
        target_chips: vec![chip],
        partition_table_offset: HexAddress(partition_table_offset),
        monitor: MonitorPolicy {
            baud: DEFAULT_MONITOR_BAUD,
            success_marker: String::new(),
            success_timeout_ms: DEFAULT_SUCCESS_TIMEOUT_MS,
        },
        ota: OtaPolicy { rollback_enabled: false },
        segments,
    };
    proof {
        reveal_strlit("sha256-");
        reveal_strlit("Firmware");
    }
    assert(manifest.target_chips@ =~= seq![chip]);
    let validated = validate_snapshot(manifest, files.as_slice())?;
    let files = keep_named(&files, &validated.manifest.segments);
    Ok(LoadedPackage { validated, source, device_partition_table_offset, files })
}

/// A single application BIN as an update: its chip from the image header,
/// one segment without an offset, the device's own layout decides where it
/// goes.
pub fn build_direct_update(application_file: String, application: Vec<u8>) -> (r: Result<LoadedPackage>)
    ensures
        match spec_validate_esp_image(application@, all_chips()) {
            Err(f) => r matches Err(e) && fails_as(e, f),
            Ok(chip) => {
                let s = segment_view(SegmentRole::Application, application_file@, None, application@);
                loaded_as(
                    r,
                    direct_manifest(
                        PackageKind::Update,
                        chip,
                        DIRECT_PARTITION_TABLE_OFFSET,
                        direct_display_name(FirmwareSource::Standalone, None, application_file@),
                        s.sha256,
                        seq![s],
                    ),
                    seq![(application_file@, application@)],
                    FirmwareSource::Standalone,
                    None,
                )
            },
        },
{
    let all = ChipFamily::all();
    let chip = validate_esp_image(application.as_slice(), all.as_slice())?;
    let seg = segment(SegmentRole::Application, application_file.as_str(), None, application.as_slice());
    let segments = vec![seg];
    let ghost sv = seg@;
    assert(segments_view(segments@) =~= seq![sv]);
    assert(first_application(seq![sv]) == Some(sv));
    let files = vec![(application_file, application)];
    assert(files_view(files@) =~= seq![(files@[0].0@, files@[0].1@)]);
    finish_direct(
        PackageKind::Update,
        FirmwareSource::Standalone,
        chip,
        None,
        DIRECT_PARTITION_TABLE_OFFSET,
        segments,
        files,
        None,
    )
}

/// What the three files of a PlatformIO factory folder give: the chip of the
/// application image, the partitions, and the partition the application
/// goes to. The bootloader must be built for the application's chip.
pub open spec fn spec_factory_prefix(
    bootloader: Seq<u8>,
    partitions: Seq<u8>,
    application: Seq<u8>,
) -> core::result::Result<(ChipFamily, Seq<PartitionView>, PartitionView), Failure> {
    match spec_validate_esp_image(application, all_chips()) {
        Err(f) => Err(f),
        Ok(chip) => match spec_validate_esp_image(bootloader, seq![chip]) {
            Err(_) => Err(
                (
                    ErrorCode::ChipMismatch,
                    "bootloader.bin и firmware.bin предназначены для разных чипов"@,
                ),
            ),
            Ok(_) => match spec_parse_partition_table(partitions) {
                Err(f) => Err(f),
                Ok(es) => match spec_select_factory_application(es, application.len() as u64) {
                    Err(f) => Err(f),
                    Ok(target) => Ok((chip, es, target)),
                },
            },
        },
    }
}

/// When the bootloader is refused for the application's chip, the error's
/// detail is the text of the bootloader's own failure.
pub open spec fn bootloader_detail_ok(e: OperationError, bootloader: Seq<u8>, application: Seq<u8>) -> bool {
    match spec_validate_esp_image(application, all_chips()) {
        Ok(chip) => match spec_validate_esp_image(bootloader, seq![chip]) {
            Err(g) => e.detail matches Some(d) && d@ == error_code_name(g.0) + ": "@ + g.1,
            Ok(_) => true,
        },
        Err(_) => true,
    }
}

/// Checks the application and the bootloader images, reads the partition
/// table and finds the application's partition.
pub fn factory_prefix(bootloader: &[u8], partitions: &[u8], application: &[u8]) -> (r: Result<(ChipFamily, Vec<PartitionEntry>, PartitionEntry)>)
    ensures
        match spec_factory_prefix(bootloader@, partitions@, application@) {
            Ok((chip, es, target)) => r matches Ok((c, v, t)) && c == chip && entries_view(v@) == es
                && t@ == target,
            Err(f) => r matches Err(e) && fails_as(e, f) && bootloader_detail_ok(e, bootloader@, application@),
        },
{
    let all = ChipFamily::all();
    let chip = validate_esp_image(application, all.as_slice())?;
    let only = vec![chip];
    assert(only@ =~= seq![chip]);
    match validate_esp_image(bootloader, only.as_slice()) {
        Ok(_) => {},
        Err(error) => {
            return Err(
                OperationError::new(
                    ErrorCode::ChipMismatch,
                    "bootloader.bin и firmware.bin предназначены для разных чипов",
                ).with_detail(error.display_text()),
            );
        },
    }
    let entries = parse_partition_table(partitions)?;
    let target = select_factory_application(entries.as_slice(), application.len() as u64)?;
    Ok((chip, entries, target))
}

/// The bytes of two erased flash sectors.
pub open spec fn erased_otadata() -> Seq<u8> {
    Seq::new(0x2000, |i: int| 0xFFu8)
}

/// The otadata segment of a factory folder, as file, bytes and offset:
/// `boot_app0.bin` when the folder has one, which needs an otadata
/// partition that it fits in (a failed read of it is passed on, `None`
/// here); else, with an otadata partition of at least two sectors, two
/// erased sectors.
pub open spec fn spec_direct_otadata(
    ota: Option<PartitionView>,
    boot_app0: Option<(Seq<char>, Option<Seq<u8>>)>,
) -> core::result::Result<Option<(Seq<char>, Seq<u8>, u32)>, Option<Failure>> {
    match boot_app0 {
        Some((file, data)) => match ota {
            None => Err(
                Some(
                    (
                        ErrorCode::PartitionInvalid,
                        "boot_app0.bin присутствует, но в partitions.bin нет otadata"@,
                    ),
                ),
            ),
            Some(o) => match data {
                None => Err(None),
                Some(d) => if d.len() > o.size {
                    Err(Some((ErrorCode::PartitionInvalid, "boot_app0.bin не помещается в otadata"@)))
                } else {
                    Ok(Some((file, d, o.offset)))
                },
            },
        },
        None => match ota {
            None => Ok(None),
            Some(o) => if o.size < 0x2000 {
                Err(Some((ErrorCode::PartitionInvalid, "Раздел otadata меньше двух erase-секторов"@)))
            } else {
                Ok(Some((GENERATED_OTADATA_FILE@, erased_otadata(), o.offset)))
            },
        },
    }
}

/// `boot_app0.bin` as plain values: its name, and its bytes unless reading
/// it failed.
pub open spec fn boot_app0_view(b: Option<(String, Result<Vec<u8>>)>) -> Option<(Seq<char>, Option<Seq<u8>>)> {
    match b {
        Some((f, Ok(d))) => Some((f@, Some(d@))),
        Some((f, Err(_))) => Some((f@, None)),
        None => None,
    }
}

pub open spec fn entry_option_view(e: Option<PartitionEntry>) -> Option<PartitionView> {
    match e {
        Some(x) => Some(x@),
        None => None,
    }
}

pub fn direct_otadata(ota: Option<PartitionEntry>, boot_app0: Option<(String, Result<Vec<u8>>)>) -> (r: Result<Option<(String, Vec<u8>, u32)>>)
    ensures
        match spec_direct_otadata(entry_option_view(ota), boot_app0_view(boot_app0)) {
            Ok(None) => r matches Ok(None),
            Ok(Some((f, d, o))) => r matches Ok(Some(x)) && x.0@ == f && x.1@ == d && x.2 == o,
            Err(Some(f)) => r matches Err(e) && fails_as(e, f),
            Err(None) => boot_app0 matches Some((_, Err(e0))) && r matches Err(e) && e == e0,
        },
{
    match boot_app0 {
        Some((file, data)) => match ota {
            None => Err(
                OperationError::new(
                    ErrorCode::PartitionInvalid,
                    "boot_app0.bin присутствует, но в partitions.bin нет otadata",
                ),
            ),
            Some(o) => match data {
                Err(e) => Err(e),
                Ok(d) => if d.len() as u64 > o.size as u64 {
                    Err(
                        OperationError::new(
                            ErrorCode::PartitionInvalid,
                            "boot_app0.bin не помещается в otadata",
                        ),
                    )
                } else {
                    Ok(Some((file, d, o.offset)))
                },
            },
        },
        None => match ota {
            None => Ok(None),
            Some(o) => if o.size < 0x2000 {
                Err(
                    OperationError::new(
                        ErrorCode::PartitionInvalid,
                        "Раздел otadata меньше двух erase-секторов",
                    ),
                )
            } else {
                let mut data: Vec<u8> = Vec::new();
                let mut i: usize = 0;
                while i < 0x2000
                    invariant
                        i <= 0x2000,
                        data@ =~= erased_otadata().take(i as int),
                    decreases 0x2000 - i,
                {
                    data.push(0xFFu8);
                    i = i + 1;
                }
                assert(erased_otadata().take(0x2000) =~= erased_otadata());
                Ok(Some((String::from_str(GENERATED_OTADATA_FILE), data, o.offset)))
            },
        },
    }
}

/// The segments of a factory folder: bootloader at the chip's address,
/// partition table at 0x8000, the otadata segment if any, and the
/// application at its partition.
pub open spec fn factory_segments(
    chip: ChipFamily,
    bootloader: (Seq<char>, Seq<u8>),
    partitions: (Seq<char>, Seq<u8>),
    application: (Seq<char>, Seq<u8>),
    application_offset: u32,
    otadata: Option<(Seq<char>, Seq<u8>, u32)>,
) -> Seq<SegmentView> {
    let head = seq![
        segment_view(SegmentRole::Bootloader, bootloader.0, Some(chip_bootloader_address(chip)), bootloader.1),
        segment_view(SegmentRole::PartitionTable, partitions.0, Some(DIRECT_PARTITION_TABLE_OFFSET), partitions.1),
    ];
    let middle = match otadata {
        Some((f, d, o)) => seq![segment_view(SegmentRole::OtaData, f, Some(o), d)],
        None => Seq::empty(),
    };
    head + middle + seq![segment_view(SegmentRole::Application, application.0, Some(application_offset), application.1)]
}

/// The files of a factory folder: the three images and the otadata bytes.
pub open spec fn factory_files(
    bootloader: (Seq<char>, Seq<u8>),
    partitions: (Seq<char>, Seq<u8>),
    application: (Seq<char>, Seq<u8>),
    otadata: Option<(Seq<char>, Seq<u8>, u32)>,
) -> Seq<(Seq<char>, Seq<u8>)> {
    seq![bootloader, partitions, application] + match otadata {
        Some((f, d, _)) => seq![(f, d)],
        None => Seq::empty(),
    }
}

/// A PlatformIO factory folder (bootloader, partition table, application and
/// optionally `boot_app0.bin`) as a factory package.
#[verifier::loop_isolation(false)]
pub fn build_direct_factory(
    folder_name: Option<String>,
    bootloader_file: String,
    bootloader: Vec<u8>,
    partitions_file: String,
    partitions: Vec<u8>,
    application_file: String,
    application: Vec<u8>,
    boot_app0: Option<(String, Result<Vec<u8>>)>,
) -> (r: Result<LoadedPackage>)
    ensures
        match spec_factory_prefix(bootloader@, partitions@, application@) {
            Err(f) => r matches Err(e) && fails_as(e, f) && bootloader_detail_ok(e, bootloader@, application@),
            Ok((chip, es, target)) => match spec_direct_otadata(
                first_of_kind(es, EntryKind::OtaData),
                boot_app0_view(boot_app0),
            ) {
                Err(Some(f)) => r matches Err(e) && fails_as(e, f),
                Err(None) => boot_app0 matches Some((_, Err(e0))) && r matches Err(e) && e == e0,
                Ok(otadata) => {
                    let folder = match folder_name {
                        Some(n) => Some(n@),
                        None => None,
                    };
                    let segs = factory_segments(
                        chip,
                        (bootloader_file@, bootloader@),
                        (partitions_file@, partitions@),
                        (application_file@, application@),
                        target.offset,
                        otadata,
                    );
                    loaded_as(
                        r,
                        direct_manifest(
                            PackageKind::Factory,
                            chip,
                            DIRECT_PARTITION_TABLE_OFFSET,
                            direct_display_name(FirmwareSource::Platformio, folder, application_file@),
                            hex_lower(sha256_digest(application@)),
                            segs,
                        ),
                        factory_files(
                            (bootloader_file@, bootloader@),
                            (partitions_file@, partitions@),
                            (application_file@, application@),
                            otadata,
                        ),
                        FirmwareSource::Platformio,
                        Some(DIRECT_PARTITION_TABLE_OFFSET),
                    )
                },
            },
        },
{
    let (chip, entries, target) = factory_prefix(
        bootloader.as_slice(),
        partitions.as_slice(),
        application.as_slice(),
    )?;
    let ota = match find_first(entries.as_slice(), EntryKind::OtaData) {
        Some(i) => Some(entries[i].duplicate()),
        None => None,
    };
    let otadata = direct_otadata(ota, boot_app0)?;
    let ghost ota_view = match &otadata {
        Some(x) => Some((x.0@, x.1@, x.2)),
        None => None,
    };
    let s_boot = segment(
        SegmentRole::Bootloader,
        bootloader_file.as_str(),
        Some(chip.bootloader_address()),
        bootloader.as_slice(),
    );
    let s_parts = segment(
        SegmentRole::PartitionTable,
        partitions_file.as_str(),
        Some(DIRECT_PARTITION_TABLE_OFFSET),
        partitions.as_slice(),
    );
    let s_app = segment(
        SegmentRole::Application,
        application_file.as_str(),
        Some(target.offset),
        application.as_slice(),
    );
    let mut segments: Vec<FirmwareSegment> = Vec::new();
    segments.push(s_boot);
    segments.push(s_parts);
    let mut files: Vec<(String, Vec<u8>)> = Vec::new();
    files.push((bootloader_file, bootloader));
    files.push((partitions_file, partitions));
    files.push((application_file, application));
    match otadata {
        Some((file, data, offset)) => {
            let s_ota = segment(SegmentRole::OtaData, file.as_str(), Some(offset), data.as_slice());
            segments.push(s_ota);
            files.push((file, data));
        },
        None => {},
    }
    segments.push(s_app);
    let ghost segs = segments_view(segments@);
    let ghost expected = factory_segments(
        chip,
        (files@[0].0@, files@[0].1@),
        (files@[1].0@, files@[1].1@),
        (files@[2].0@, files@[2].1@),
        target.offset,
        ota_view,
    );
    assert(segs =~= expected);
    proof {
        let n = segs.len();
        assert(segs[n - 1].role == SegmentRole::Application);
        assert(segs[0].role == SegmentRole::Bootloader);
        assert(segs.drop_first()[0].role == SegmentRole::PartitionTable);
        if n == 4 {
            assert(segs.drop_first().drop_first()[0].role == SegmentRole::OtaData);
            assert(segs.drop_first().drop_first().drop_first()[0] == segs[3]);
            assert(first_application(segs.drop_first().drop_first().drop_first()) == Some(segs[3]));
            assert(first_application(segs.drop_first().drop_first()) == Some(segs[3]));
        } else {
            assert(segs.drop_first().drop_first()[0] == segs[2]);
            assert(first_application(segs.drop_first().drop_first()) == Some(segs[2]));
        }
        assert(first_application(segs.drop_first()) == Some(segs[n - 1]));
        assert(first_application(segs) == Some(segs[n - 1]));
    }
    assert(files_view(files@) =~= factory_files(
        (files@[0].0@, files@[0].1@),
        (files@[1].0@, files@[1].1@),
        (files@[2].0@, files@[2].1@),
        ota_view,
    ));
    finish_direct(
        PackageKind::Factory,
        FirmwareSource::Platformio,
        chip,
        folder_name,
        DIRECT_PARTITION_TABLE_OFFSET,
        segments,
        files,
        Some(DIRECT_PARTITION_TABLE_OFFSET),
    )
}

// ---------------------------------------------------------------------------
// Folders without a manifest
// ---------------------------------------------------------------------------

/// A name equals one of the aliases when ASCII letters are folded.
pub open spec fn alias_match(name: Seq<char>, aliases: Seq<Seq<char>>) -> bool {
    exists|k: int| 0 <= k < aliases.len() && ascii_lower(name) == ascii_lower(#[trigger] aliases[k])
}

/// The names, in order, that match one of the aliases (`keep`) or none of
/// them (`!keep`).
pub open spec fn names_where(names: Seq<Seq<char>>, aliases: Seq<Seq<char>>, keep: bool) -> Seq<Seq<char>>
    decreases names.len(),
{
    if names.len() == 0 {
        Seq::empty()
    } else {
        let rest = names_where(names.drop_last(), aliases, keep);
        if alias_match(names.last(), aliases) == keep {
            rest.push(names.last())
        } else {
            rest
        }
    }
}

pub open spec fn strs_view(v: Seq<&str>) -> Seq<Seq<char>> {
    v.map_values(|s: &str| s@)
}

/// The file of a role: none, the single file whose name is one of the
/// role's aliases, or a failure when several are.
pub open spec fn spec_unique_named(names: Seq<Seq<char>>, aliases: Seq<Seq<char>>) -> core::result::Result<Option<Seq<char>>, Failure> {
    let m = names_where(names, aliases, true);
    if m.len() == 0 {
        Ok(None)
    } else if m.len() == 1 {
        Ok(Some(m[0]))
    } else {
        Err((ErrorCode::PackageInvalid, "Найдено несколько BIN для одной роли"@))
    }
}

/// Whether one of the aliases equals the name when ASCII letters are folded.
fn matches_alias(name: &str, aliases: &[&str]) -> (b: bool)
    ensures
        b == alias_match(name@, strs_view(aliases@)),
{
    let ghost av = strs_view(aliases@);
    let mut k: usize = 0;
    while k < aliases.len()
        invariant
            av == strs_view(aliases@),
            k <= aliases@.len(),
            forall|j: int| 0 <= j < k ==> ascii_lower(name@) != ascii_lower(#[trigger] av[j]),
        decreases aliases@.len() - k,
    {
        if eq_ignore_ascii_case(name, aliases[k]) {
            assert(ascii_lower(name@) == ascii_lower(av[k as int]));
            return true;
        }
        k = k + 1;
    }
    false
}

/// The names that match the aliases (`keep`) or that match none of them.
fn select_names(names: &[String], aliases: &[&str], keep: bool) -> (v: Vec<String>)
    ensures
        strings_view(v@) == names_where(strings_view(names@), strs_view(aliases@), keep),
{
    let ghost nv = strings_view(names@);
    let ghost av = strs_view(aliases@);
    let mut v: Vec<String> = Vec::new();
    let mut i: usize = 0;
    while i < names.len()
        invariant
            nv == strings_view(names@),
            av == strs_view(aliases@),
            i <= nv.len(),
            strings_view(v@) == names_where(nv.take(i as int), av, keep),
        decreases nv.len() - i,
    {
        proof {
            assert(nv.take(i + 1).drop_last() =~= nv.take(i as int));
        }
        if matches_alias(names[i].as_str(), aliases) == keep {
            v.push(names[i].clone());
            assert(strings_view(v@) =~= names_where(nv.take(i as int), av, keep).push(nv[i as int]));
        }
        i = i + 1;
    }
    assert(nv.take(i as int) =~= nv);
    v
}

/// The file of a role in a folder without a manifest.
pub fn unique_named(files: &[String], aliases: &[&str]) -> (r: Result<Option<String>>)
    ensures
        match spec_unique_named(strings_view(files@), strs_view(aliases@)) {
            Ok(None) => r matches Ok(None),
            Ok(Some(n)) => r matches Ok(Some(x)) && x@ == n,
            Err(f) => r matches Err(e) && fails_as(e, f) && (e.detail matches Some(d) && d@
                == comma_join(names_where(strings_view(files@), strs_view(aliases@), true))),
        },
{
    let matches = select_names(files, aliases, true);
    if matches.len() == 0 {
        Ok(None)
    } else if matches.len() == 1 {
        assert(strings_view(matches@)[0] == matches@[0]@);
        Ok(Some(matches[0].clone()))
    } else {
        Err(
            OperationError::new(
                ErrorCode::PackageInvalid,
                "Найдено несколько BIN для одной роли",
            ).with_detail(join_comma(matches.as_slice())),
        )
    }
}

/// A file a factory folder must have.
pub fn required_direct_file(value: Option<String>, expected: &str) -> (r: Result<String>)
    ensures
        match value {
            Some(v) => r == Ok::<String, OperationError>(v),
            None => r matches Err(e) && fails_as(
                e,
                (ErrorCode::PackageFileMissing, "Factory-папка PlatformIO неполна"@),
            ) && (e.detail matches Some(d) && d@ == "не найден "@ + expected@),
        },
{
    match value {
        Some(v) => Ok(v),
        None => {
            let mut detail = String::from_str("не найден ");
            detail.append(expected);
            proof {
                reveal_strlit("не найден ");
            }
            Err(
                OperationError::new(
                    ErrorCode::PackageFileMissing,
                    "Factory-папка PlatformIO неполна",
                ).with_detail(detail),
            )
        },
    }
}

/// What a folder without a manifest holds.
#[derive(Debug)]
pub enum DirectPlan {
    /// A PlatformIO build: bootloader, partition table, application and
    /// optionally `boot_app0.bin`.
    Factory {
        bootloader: String,
        partitions: String,
        application: String,
        boot_app0: Option<String>,
    },
    /// A single application BIN.
    Update { application: String },
}

/// A folder plan as plain values.
pub enum DirectPlanView {
    Factory {
        bootloader: Seq<char>,
        partitions: Seq<char>,
        application: Seq<char>,
        boot_app0: Option<Seq<char>>,
    },
    Update { application: Seq<char> },
}

impl View for DirectPlan {
    type V = DirectPlanView;

    open spec fn view(&self) -> DirectPlanView {
        match self {
            DirectPlan::Factory { bootloader, partitions, application, boot_app0 } => DirectPlanView::Factory {
                bootloader: bootloader@,
                partitions: partitions@,
                application: application@,
                boot_app0: match boot_app0 {
                    Some(b) => Some(b@),
                    None => None,
                },
            },
            DirectPlan::Update { application } => DirectPlanView::Update { application: application@ },
        }
    }
}

pub open spec fn bootloader_aliases() -> Seq<Seq<char>> {
    seq!["bootloader.bin"@]
}

pub open spec fn partitions_aliases() -> Seq<Seq<char>> {
    seq!["partitions.bin"@, "partition-table.bin"@, "partition_table.bin"@]
}

pub open spec fn application_aliases() -> Seq<Seq<char>> {
    seq!["firmware.bin"@]
}

pub open spec fn boot_app0_aliases() -> Seq<Seq<char>> {
    seq!["boot_app0.bin"@]
}

/// The names a factory folder may hold: its three images and `boot_app0.bin`.
pub open spec fn allowed_names(b: Seq<char>, p: Seq<char>, a: Seq<char>, o: Option<Seq<char>>) -> Seq<Seq<char>> {
    seq![b, p, a] + match o {
        Some(x) => seq![x],
        None => Seq::empty(),
    }
}

/// What the BIN files of a folder without a manifest make of it. Any of
/// bootloader, partition table or `boot_app0.bin` makes it a factory folder,
/// which then needs the bootloader, the partition table and `firmware.bin`,
/// and no other BIN; otherwise the folder must hold exactly one BIN, the
/// application of an update.
pub open spec fn spec_plan_direct_folder(names: Seq<Seq<char>>) -> core::result::Result<DirectPlanView, Failure> {
    match spec_unique_named(names, bootloader_aliases()) {
        Err(f) => Err(f),
        Ok(b) => match spec_unique_named(names, partitions_aliases()) {
            Err(f) => Err(f),
            Ok(p) => match spec_unique_named(names, application_aliases()) {
                Err(f) => Err(f),
                Ok(a) => match spec_unique_named(names, boot_app0_aliases()) {
                    Err(f) => Err(f),
                    Ok(o) => if b is Some || p is Some || o is Some {
                        if b is None || p is None || a is None {
                            Err((ErrorCode::PackageFileMissing, "Factory-папка PlatformIO неполна"@))
                        } else if names_where(names, allowed_names(b.unwrap(), p.unwrap(), a.unwrap(), o), false).len() > 0 {
                            Err((ErrorCode::PackageInvalid, "В factory-папке найдены BIN с неизвестными адресами"@))
                        } else {
                            Ok(DirectPlanView::Factory {
                                bootloader: b.unwrap(),
                                partitions: p.unwrap(),
                                application: a.unwrap(),
                                boot_app0: o,
                            })
                        }
                    } else if names.len() == 1 {
                        Ok(DirectPlanView::Update { application: names[0] })
                    } else if names.len() == 0 {
                        Err((ErrorCode::PackageFileMissing, "В выбранной папке нет BIN-файлов"@))
                    } else {
                        Err((ErrorCode::PackageInvalid, "Для обновления в папке должен быть ровно один application BIN"@))
                    },
                },
            },
        },
    }
}

/// Decides what a folder without a manifest holds from the names of its
/// BIN files.
pub fn plan_direct_folder(bin_files: &[String]) -> (r: Result<DirectPlan>)
    ensures
        match spec_plan_direct_folder(strings_view(bin_files@)) {
            Ok(p) => r matches Ok(x) && x@ == p,
            Err(f) => r matches Err(e) && fails_as(e, f),
        },
{
    let ghost names = strings_view(bin_files@);
    let a_boot: [&str; 1] = ["bootloader.bin"];
    let a_parts: [&str; 3] = ["partitions.bin", "partition-table.bin", "partition_table.bin"];
    let a_app: [&str; 1] = ["firmware.bin"];
    let a_ota: [&str; 1] = ["boot_app0.bin"];
    assert(strs_view(a_boot@) =~= bootloader_aliases());
    assert(strs_view(a_parts@) =~= partitions_aliases());
    assert(strs_view(a_app@) =~= application_aliases());
    assert(strs_view(a_ota@) =~= boot_app0_aliases());
    let bootloader = unique_named(bin_files, &a_boot)?;
    let partitions = unique_named(bin_files, &a_parts)?;
    let application = unique_named(bin_files, &a_app)?;
    let boot_app0 = unique_named(bin_files, &a_ota)?;
    if bootloader.is_some() || partitions.is_some() || boot_app0.is_some() {
        let bootloader = required_direct_file(bootloader, "bootloader.bin")?;
        let partitions = required_direct_file(partitions, "partitions.bin")?;
        let application = required_direct_file(application, "firmware.bin")?;
        let mut allowed: Vec<&str> = Vec::new();
        allowed.push(bootloader.as_str());
        allowed.push(partitions.as_str());
        allowed.push(application.as_str());
        match &boot_app0 {
            Some(o) => allowed.push(o.as_str()),
            None => {},
        }
        let ghost o_view = match &boot_app0 {
            Some(o) => Some(o@),
            None => None,
        };
        assert(strs_view(allowed@) =~= allowed_names(bootloader@, partitions@, application@, o_view));
        let unknown = select_names(bin_files, allowed.as_slice(), false);
        if unknown.len() > 0 {
            return Err(
                OperationError::new(
                    ErrorCode::PackageInvalid,
                    "В factory-папке найдены BIN с неизвестными адресами",
                ).with_detail(join_comma(unknown.as_slice())),
            );
        }
        Ok(DirectPlan::Factory { bootloader, partitions, application, boot_app0 })
    } else if bin_files.len() == 1 {
        Ok(DirectPlan::Update { application: bin_files[0].clone() })
    } else if bin_files.len() == 0 {
        Err(OperationError::new(ErrorCode::PackageFileMissing, "В выбранной папке нет BIN-файлов"))
    } else {
        Err(
            OperationError::new(
                ErrorCode::PackageInvalid,
                "Для обновления в папке должен быть ровно один application BIN",
            ).with_detail(join_comma(bin_files)),
        )
    }
}

/// A name ends in `.bin`, ignoring ASCII case.
pub open spec fn spec_has_bin_extension(name: Seq<char>) -> bool {
    let lower = ascii_lower(name);
    lower.len() >= 4 && lower.skip(lower.len() - 4) == ".bin"@
}

pub fn has_bin_extension(name: &str) -> (b: bool)
    ensures
        b == spec_has_bin_extension(name@),
{
    let c = chars_of(name);
    let n = c.len();
    proof {
        reveal_strlit(".bin");
    }
    if n < 4 {
        assert(ascii_lower(name@).len() == name@.len());
        return false;
    }
    let tail = name.substring_char(n - 4, n);
    let r = eq_ascii_lower(tail, ".bin");
    proof {
        let lower = ascii_lower(name@);
        assert(lower.skip(lower.len() - 4) =~= ascii_lower(name@.subrange(n - 4, n as int)));
    }
    r
}

/// A single file chosen for an update must be a `.bin`.
pub fn check_direct_file_name(name: &str) -> (r: Result<()>)
    ensures
        (r is Ok) == spec_has_bin_extension(name@),
        r matches Err(e) ==> fails_as(
            e,
            (ErrorCode::PackageInvalid, "Для обновления выберите файл с расширением .bin"@),
        ) && (e.detail matches Some(d) && d@ == name@),
{
    if !has_bin_extension(name) {
        return Err(
            OperationError::new(
                ErrorCode::PackageInvalid,
                "Для обновления выберите файл с расширением .bin",
            ).with_detail(String::from_str(name)),
        );
    }
    Ok(())
}

// ---------------------------------------------------------------------------
// Names derived for folders and files without a manifest
// ---------------------------------------------------------------------------

/// One step of turning a name into a package id: allowed bytes are kept,
/// each run of other bytes becomes one `-`, and at most 64 bytes are kept.
pub open spec fn id_scan(bytes: Seq<u8>) -> (Seq<u8>, bool)
    decreases bytes.len(),
{
    if bytes.len() == 0 {
        (seq![], false)
    } else {
        let prev = id_scan(bytes.drop_last());
        let r = prev.0;
        let b = bytes.last();
        if package_id_byte(b) {
            (if r.len() < 64 { r.push(b) } else { r }, false)
        } else if !prev.1 {
            (if r.len() < 64 { r.push(0x2Du8) } else { r }, true)
        } else {
            prev
        }
    }
}

/// The number of leading `-` bytes.
pub open spec fn leading_dashes(s: Seq<u8>) -> nat
    decreases s.len(),
{
    if s.len() == 0 || s[0] != 0x2D {
        0
    } else {
        1 + leading_dashes(s.drop_first())
    }
}

/// The number of trailing `-` bytes.
pub open spec fn trailing_dashes(s: Seq<u8>) -> nat
    decreases s.len(),
{
    if s.len() == 0 || s.last() != 0x2D {
        0
    } else {
        1 + trailing_dashes(s.drop_last())
    }
}

/// The bytes without leading and trailing `-`.
pub open spec fn trim_dashes(s: Seq<u8>) -> Seq<u8> {
    let t = s.skip(leading_dashes(s) as int);
    t.take(t.len() - trailing_dashes(t))
}

/// The package id derived from a display name; `firmware` when nothing is left.
pub open spec fn spec_package_id(name: Seq<char>) -> Seq<char> {
    let t = trim_dashes(id_scan(vstd::utf8::encode_utf8(name)).0);
    if t.len() == 0 {
        "firmware"@
    } else {
        ascii_chars(t)
    }
}

proof fn lemma_id_scan(bytes: Seq<u8>)
    ensures
        id_scan(bytes).0.len() <= 64,
        forall|i: int| 0 <= i < id_scan(bytes).0.len() ==> package_id_byte(#[trigger] id_scan(bytes).0[i]),
    decreases bytes.len(),
{
    if bytes.len() > 0 {
        lemma_id_scan(bytes.drop_last());
    }
}

proof fn lemma_leading_dashes(s: Seq<u8>)
    ensures
        leading_dashes(s) <= s.len(),
        forall|i: int| 0 <= i < leading_dashes(s) ==> s[i] == 0x2D,
        leading_dashes(s) < s.len() ==> s[leading_dashes(s) as int] != 0x2D,
    decreases s.len(),
{
    if s.len() > 0 && s[0] == 0x2D {
        lemma_leading_dashes(s.drop_first());
        assert forall|i: int| 0 <= i < leading_dashes(s) implies s[i] == 0x2D by {
            if i > 0 {
                assert(s[i] == s.drop_first()[i - 1]);
            }
        }
    }
}

proof fn lemma_trailing_dashes(s: Seq<u8>)
    ensures
        trailing_dashes(s) <= s.len(),
        forall|i: int| s.len() - trailing_dashes(s) <= i < s.len() ==> s[i] == 0x2D,
        trailing_dashes(s) < s.len() ==> s[s.len() - trailing_dashes(s) - 1] != 0x2D,
    decreases s.len(),
{
    if s.len() > 0 && s.last() == 0x2D {
        let d = s.drop_last();
        lemma_trailing_dashes(d);
        assert forall|i: int| s.len() - trailing_dashes(s) <= i < s.len() implies s[i] == 0x2D by {
            if i < s.len() - 1 {
                assert(s[i] == d[i]);
            }
        }
    }
}

/// The package id derived from a display name: allowed bytes kept, each run
/// of other bytes one `-`, at most 64 bytes, no `-` at either end, and
/// `firmware` when nothing is left.
pub fn package_id(display_name: &str) -> (id: String)
    ensures
        id@ == spec_package_id(display_name@),
{
    let bytes = display_name.as_bytes();
    let ghost all = bytes@;
    let mut result: Vec<u8> = Vec::new();
    let mut separator = false;
    let mut i: usize = 0;
    while i < bytes.len()
        invariant
            all == bytes@,
            all == vstd::utf8::encode_utf8(display_name@),
            i <= all.len(),
            (result@, separator) == id_scan(all.take(i as int)),
        decreases all.len() - i,
    {
        proof {
            assert(all.take(i + 1).drop_last() =~= all.take(i as int));
        }
        let b = bytes[i];
        if (0x30 <= b && b <= 0x39) || (0x41 <= b && b <= 0x5A) || (0x61 <= b && b <= 0x7A) || b
            == 0x2E || b == 0x5F || b == 0x2D {
            separator = false;
            if result.len() < 64 {
                result.push(b);
            }
        } else if !separator {
            separator = true;
            if result.len() < 64 {
                result.push(0x2Du8);
            }
        }
        i = i + 1;
    }
    assert(all.take(i as int) =~= all);
    let ghost r = result@;
    proof {
        lemma_id_scan(all);
        lemma_leading_dashes(r);
    }
    let mut start: usize = 0;
    while start < result.len() && result[start] == 0x2D
        invariant
            r == result@,
            start <= leading_dashes(r),
            leading_dashes(r) <= r.len(),
            forall|k: int| 0 <= k < leading_dashes(r) ==> r[k] == 0x2D,
            leading_dashes(r) < r.len() ==> r[leading_dashes(r) as int] != 0x2D,
        decreases result@.len() - start,
    {
        start = start + 1;
    }
    let ghost t = r.skip(start as int);
    assert(start == leading_dashes(r));
    proof {
        lemma_trailing_dashes(t);
    }
    let mut end: usize = result.len();
    while end > start && result[end - 1] == 0x2D
        invariant
            r == result@,
            t == r.skip(start as int),
            start <= end <= r.len(),
            r.len() - end <= trailing_dashes(t),
            trailing_dashes(t) <= t.len(),
            forall|k: int| t.len() - trailing_dashes(t) <= k < t.len() ==> t[k] == 0x2D,
            trailing_dashes(t) < t.len() ==> t[t.len() - trailing_dashes(t) - 1] != 0x2D,
        decreases end,
    {
        end = end - 1;
    }
    proof {
        if end > start {
            assert(t[end - 1 - start] == r[end - 1]);
        }
    }
    assert(r.len() - end == trailing_dashes(t));
    if start == end {
        proof {
            reveal_strlit("firmware");
        }
        return String::from_str("firmware");
    }
    let trimmed = vstd::slice::slice_subrange(result.as_slice(), start, end);
    assert(trimmed@ =~= trim_dashes(r));
    proof {
        assert forall|k: int| 0 <= k < trimmed@.len() implies #[trigger] trimmed@[k] < 0x80 by {
            assert(trimmed@[k] == r[start + k]);
            assert(package_id_byte(r[start + k]));
        }
    }
    ascii_to_string(trimmed)
}

/// A derived package id always passes the manifest's package-id check.
pub proof fn lemma_package_id_valid(name: Seq<char>)
    ensures
        spec_is_package_id(spec_package_id(name)),
{
    let t = trim_dashes(id_scan(vstd::utf8::encode_utf8(name)).0);
    let r = id_scan(vstd::utf8::encode_utf8(name)).0;
    lemma_id_scan(vstd::utf8::encode_utf8(name));
    lemma_leading_dashes(r);
    let u = r.skip(leading_dashes(r) as int);
    lemma_trailing_dashes(u);
    if t.len() == 0 {
        reveal_strlit("firmware");
        let f = "firmware"@;
        assert(vstd::utf8::is_ascii_chars(f));
        vstd::utf8::is_ascii_chars_encode_utf8(f);
        let b = vstd::utf8::encode_utf8(f);
        assert forall|i: int| 0 <= i < b.len() implies package_id_byte(#[trigger] b[i]) by {
            assert(b[i] == f[i] as u8);
        }
    } else {
        let c = ascii_chars(t);
        assert forall|i: int| 0 <= i < t.len() implies package_id_byte(#[trigger] t[i]) by {
            assert(t[i] == r[leading_dashes(r) + i]);
        }
        assert(vstd::utf8::is_ascii_chars(c));
        vstd::utf8::is_ascii_chars_encode_utf8(c);
        let b = vstd::utf8::encode_utf8(c);
        assert forall|i: int| 0 <= i < b.len() implies package_id_byte(#[trigger] b[i]) by {
            assert(b[i] == c[i] as u8);
            vstd::utf8::char_u32_cast(c[i], t[i] as u32);
        }
    }
}

} // verus!
