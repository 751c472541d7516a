use vstd::prelude::*;
use crate::digest::{sha256_digest, sha256_of};
use crate::error::{ErrorCode, Failure, OperationError, fails_as, outcome_is};
use crate::image::{spec_validate_esp_image, validate_esp_image};
use crate::manifest::{
    FirmwareManifest, FirmwareSegment, PackageKind, SegmentRole, SegmentView, chip_name,
    hex_address_text, segments_view, spec_validate_structure,
};
use crate::text::{chars_of, hex_lower, to_hex_lower};

verus! {

pub const MAX_SEGMENT_BYTES: u64 = 64 * 1024 * 1024;
pub const MAX_PACKAGE_BYTES: u64 = 256 * 1024 * 1024;

/// Reads the BIN files a manifest names, relative to the package.
pub trait PackageReader {
    /// Whether `r` is an outcome of reading the file at `relative_path`
    /// with at most `max_bytes` bytes. A reader that does not say so admits
    /// every outcome.
    open spec fn reads_as(&self, relative_path: Seq<char>, max_bytes: u64, r: Result<Vec<u8>, OperationError>) -> bool {
        true
    }

    fn read_file(&self, relative_path: &str, max_bytes: u64) -> (r: Result<Vec<u8>, OperationError>)
        ensures
            self.reads_as(relative_path@, max_bytes, r),
    ;
}

/// A manifest whose segments were all read and checked.
#[derive(Debug, Clone, PartialEq, Eq)]
pub struct ValidatedPackage {
    pub manifest: FirmwareManifest,
    pub total_bytes: u64,
}

/// A segment as the user interface shows it.
#[derive(Debug, Clone, PartialEq, Eq)]
pub struct SegmentSummary {
    pub role: SegmentRole,
    pub file: String,
    pub offset: Option<String>,
    pub size: u64,
}

/// Where a loaded firmware came from.
#[derive(Debug, Clone, Copy, PartialEq, Eq, Structural)]
pub enum FirmwareSource {
    Platformio,
    Standalone,
    LegacyManifest,
}

/// A package as the user interface shows it.
#[derive(Debug, Clone, PartialEq, Eq)]
pub struct PackageSummary {
    pub package_id: String,
    pub display_name: String,
    pub firmware_version: String,
    pub kind: PackageKind,
    pub target_chips: Vec<String>,
    pub segment_count: usize,
    pub total_bytes: u64,
    pub monitor_baud: u32,
    pub success_timeout_ms: u64,
    pub success_marker_configured: bool,
    pub source: FirmwareSource,
    pub requires_device_layout: bool,
    pub segments: Vec<SegmentSummary>,
}

// ---------------------------------------------------------------------------
// Relative paths inside a package
// ---------------------------------------------------------------------------

/// A `..` path component starts at `i`.
pub open spec fn parent_component_at(s: Seq<char>, i: int) -> bool {
    &&& 0 <= i
    &&& i + 2 <= s.len()
    &&& s[i] == '.'
    &&& s[i + 1] == '.'
    &&& (i == 0 || s[i - 1] == '/')
    &&& (i + 2 == s.len() || s[i + 2] == '/')
}

/// A path that stays inside the package folder: not empty, no `\`, `:` or
/// NUL, not rooted at `/`, not starting with a `.` component, and without
/// `..` components.
pub open spec fn relative_path_ok(s: Seq<char>) -> bool {
    &&& s.len() > 0
    &&& forall|i: int| 0 <= i < s.len() ==> #[trigger] s[i] != '\\' && s[i] != ':' && s[i] != '\0'
    &&& s[0] != '/'
    &&& !(s[0] == '.' && (s.len() == 1 || s[1] == '/'))
    &&& !exists|i: int| parent_component_at(s, i)
}

pub open spec fn invalid_path_failure() -> Failure {
    (ErrorCode::PackagePathInvalid, "Путь BIN должен находиться внутри папки пакета"@)
}

pub fn invalid_path(value: &str) -> (e: OperationError)
    ensures
        fails_as(e, invalid_path_failure()),
        e.detail matches Some(d) && d@ == value@,
{
    OperationError::new(
        ErrorCode::PackagePathInvalid,
        "Путь BIN должен находиться внутри папки пакета",
    ).with_detail(String::from_str(value))
}

pub fn validate_relative_path(value: &str) -> (r: Result<(), OperationError>)
    ensures
        (r is Ok) == relative_path_ok(value@),
        r matches Err(e) ==> fails_as(e, invalid_path_failure()) && (e.detail matches Some(d)
            && d@ == value@),
{
    let c = chars_of(value);
    let n = c.len();
    if n == 0 {
        return Err(invalid_path(value));
    }
    let mut i: usize = 0;
    while i < n
        invariant
            c@ == value@,
            n == c@.len(),
            i <= n,
            forall|k: int| 0 <= k < i ==> #[trigger] c@[k] != '\\' && c@[k] != ':' && c@[k] != '\0',
            forall|k: int| 0 <= k < i ==> !parent_component_at(c@, k),
        decreases n - i,
    {
        let ch = c[i];
        if ch == '\\' || ch == ':' || ch == '\0' {
            return Err(invalid_path(value));
        }
        if ch == '.' && i + 1 < n && c[i + 1] == '.' && (i == 0 || c[i - 1] == '/') && (i + 2
            == n || c[i + 2] == '/') {
            assert(parent_component_at(c@, i as int));
            return Err(invalid_path(value));
        }
        i = i + 1;
    }
    if c[0] == '/' {
        return Err(invalid_path(value));
    }
    if c[0] == '.' && (n == 1 || c[1] == '/') {
        return Err(invalid_path(value));
    }
    assert forall|k: int| !parent_component_at(value@, k) by {
        if 0 <= k < n {
        }
    }
    Ok(())
}

// ---------------------------------------------------------------------------
// Package validation
// ---------------------------------------------------------------------------

/// The bytes read for a segment match it: its size, its SHA-256, and, for
/// an application, an image for one of the target chips.
pub open spec fn spec_check_segment_bytes(s: SegmentView, bytes: Seq<u8>, chips: Seq<crate::manifest::ChipFamily>) -> Result<(), Failure> {
    if bytes.len() != s.size {
        Err((ErrorCode::PackageInvalid, "Размер BIN не совпадает с firmware.json"@))
    } else if hex_lower(sha256_digest(bytes)) != s.sha256 {
        Err((ErrorCode::HashMismatch, "SHA-256 BIN не совпадает с firmware.json"@))
    } else if s.role == SegmentRole::Application {
        match spec_validate_esp_image(bytes, chips) {
            Err(f) => Err(f),
            Ok(_) => Ok(()),
        }
    } else {
        Ok(())
    }
}

/// Checks the bytes read for one segment of a manifest.
pub fn check_segment_bytes(segment: &FirmwareSegment, bytes: &[u8], target_chips: &[crate::manifest::ChipFamily]) -> (r: Result<(), OperationError>)
    ensures
        outcome_is(r, spec_check_segment_bytes(segment@, bytes@, target_chips@)),
        r matches Err(e) ==> ((bytes@.len() != segment.size || hex_lower(sha256_digest(bytes@))
            != segment@.sha256) ==> (e.detail matches Some(d) && d@ == segment@.file)),
{
    if bytes.len() as u64 != segment.size {
        return Err(
            OperationError::new(
                ErrorCode::PackageInvalid,
                "Размер BIN не совпадает с firmware.json",
            ).with_detail(segment.file.clone()),
        );
    }
    let digest = sha256_of(bytes);
    let actual = to_hex_lower(digest.as_slice());
    if actual != segment.sha256 {
        return Err(
            OperationError::new(
                ErrorCode::HashMismatch,
                "SHA-256 BIN не совпадает с firmware.json",
            ).with_detail(segment.file.clone()),
        );
    }
    if segment.role == SegmentRole::Application {
        validate_esp_image(bytes, target_chips)?;
    }
    Ok(())
}

/// The sizes of the first `n` segments, added up.
pub open spec fn total_size(segs: Seq<SegmentView>) -> int
    decreases segs.len(),
{
    if segs.len() == 0 {
        0
    } else {
        total_size(segs.drop_last()) + segs.last().size
    }
}

/// The checks on a segment that come before it is read, with the running
/// total of the segments before it: its path, its size, and the package's
/// total size; the failure and the detail it carries.
pub open spec fn pre_read_failure(s: SegmentView, total: int) -> Option<(Failure, Option<Seq<char>>)> {
    if !relative_path_ok(s.file) {
        Some((invalid_path_failure(), Some(s.file)))
    } else if s.size > MAX_SEGMENT_BYTES {
        Some(((ErrorCode::PackageInvalid, "Сегмент превышает допустимый размер"@), Some(s.file)))
    } else if s.size > MAX_PACKAGE_BYTES - total {
        Some(((ErrorCode::PackageInvalid, "Суммарный размер пакета превышает допустимый"@), None))
    } else {
        None
    }
}

/// The error carries this failure and this detail.
pub open spec fn error_is(e: OperationError, f: (Failure, Option<Seq<char>>)) -> bool {
    &&& fails_as(e, f.0)
    &&& match (e.detail, f.1) {
        (Some(d), Some(x)) => d@ == x,
        (None, None) => true,
        _ => false,
    }
}

/// A read of the segment's file, limited to [`MAX_SEGMENT_BYTES`], gave
/// bytes that match the segment.
pub open spec fn segment_read_ok<R: PackageReader>(reader: &R, s: SegmentView, chips: Seq<crate::manifest::ChipFamily>) -> bool {
    exists|b: Vec<u8>|
        #[trigger] reader.reads_as(s.file, MAX_SEGMENT_BYTES, Ok::<Vec<u8>, OperationError>(b))
            && spec_check_segment_bytes(s, b@, chips) is Ok
}

/// The first `k` segments passed their checks and were read and matched.
pub open spec fn segments_pass<R: PackageReader>(
    reader: &R,
    segs: Seq<SegmentView>,
    chips: Seq<crate::manifest::ChipFamily>,
    k: int,
) -> bool {
    forall|j: int|
        #![trigger segs[j]]
        0 <= j < k ==> pre_read_failure(segs[j], total_size(segs.take(j))) is None
            && segment_read_ok(reader, segs[j], chips)
}

/// Validating the segments stopped at segment `k`, every earlier one having
/// passed: on a check before the read, with what the reader gave, or on the
/// bytes read.
pub open spec fn fails_at<R: PackageReader>(
    e: OperationError,
    reader: &R,
    segs: Seq<SegmentView>,
    chips: Seq<crate::manifest::ChipFamily>,
    k: int,
) -> bool {
    &&& 0 <= k < segs.len()
    &&& segments_pass(reader, segs, chips, k)
    &&& match pre_read_failure(segs[k], total_size(segs.take(k))) {
        Some(f) => error_is(e, f),
        None => reader.reads_as(segs[k].file, MAX_SEGMENT_BYTES, Err::<Vec<u8>, OperationError>(e))
            || exists|b: Vec<u8>|
            #[trigger] reader.reads_as(segs[k].file, MAX_SEGMENT_BYTES, Ok::<Vec<u8>, OperationError>(b))
                && (spec_check_segment_bytes(segs[k], b@, chips) matches Err(f) && fails_as(e, f)),
    }
}

/// Checks a manifest and every segment it names, in order: the structure;
/// then for each segment its path, its size and the running total, before
/// it is read with the limit [`MAX_SEGMENT_BYTES`]; then the bytes read.
#[verifier::loop_isolation(false)]
#[verifier::rlimit(60)]
#[verifier::spinoff_prover]
pub fn validate_package(manifest: FirmwareManifest, reader: &impl PackageReader) -> (r: Result<ValidatedPackage, OperationError>)
    ensures
        spec_validate_structure(manifest@) matches Err(f) ==> r matches Err(e) && fails_as(e, f),
        spec_validate_structure(manifest@) is Ok && segments_view(manifest.segments@).len() > 0 ==> (
        pre_read_failure(segments_view(manifest.segments@)[0], 0) matches Some(f) ==> (r matches Err(e)
            && error_is(e, f))),
        spec_validate_structure(manifest@) is Ok ==> (r matches Err(e) ==> exists|k: int|
            fails_at(e, reader, segments_view(manifest.segments@), manifest.target_chips@, k)),
        r matches Ok(p) ==> {
            let segs = segments_view(manifest.segments@);
            &&& p.manifest == manifest
            &&& p.total_bytes == total_size(segs)
            &&& p.total_bytes <= MAX_PACKAGE_BYTES
            &&& spec_validate_structure(manifest@) is Ok
            &&& segments_pass(reader, segs, manifest.target_chips@, segs.len() as int)
            &&& forall|i: int| 0 <= i < segs.len() ==> {
                &&& relative_path_ok(#[trigger] segs[i].file)
                &&& segs[i].size <= MAX_SEGMENT_BYTES
            }
        },
{
    manifest.validate_structure()?;
    let ghost segs = segments_view(manifest.segments@);
    let ghost chips = manifest.target_chips@;
    assert(segs.take(0) =~= Seq::<SegmentView>::empty());
    let mut total: u64 = 0;
    let mut i: usize = 0;
    while i < manifest.segments.len()
        invariant
            segs == segments_view(manifest.segments@),
            chips == manifest.target_chips@,
            spec_validate_structure(manifest@) is Ok,
            i <= segs.len(),
            total == total_size(segs.take(i as int)),
            total <= MAX_PACKAGE_BYTES,
            segments_pass(reader, segs, chips, i as int),
            forall|k: int| 0 <= k < i ==> {
                &&& relative_path_ok(#[trigger] segs[k].file)
                &&& segs[k].size <= MAX_SEGMENT_BYTES
            },
        decreases segs.len() - i,
    {
        let segment = &manifest.segments[i];
        assert(segs[i as int] == segment@);
        if let Err(e) = validate_relative_path(segment.file.as_str()) {
            assert(fails_at(e, reader, segs, chips, i as int));
            return Err(e);
        }
        if segment.size > MAX_SEGMENT_BYTES {
            let e = OperationError::new(
                ErrorCode::PackageInvalid,
                "Сегмент превышает допустимый размер",
            ).with_detail(segment.file.clone());
            assert(fails_at(e, reader, segs, chips, i as int));
            return Err(e);
        }
        if segment.size > MAX_PACKAGE_BYTES - total {
            let e = OperationError::new(
                ErrorCode::PackageInvalid,
                "Суммарный размер пакета превышает допустимый",
            );
            assert(fails_at(e, reader, segs, chips, i as int));
            return Err(e);
        }
        assert(pre_read_failure(segs[i as int], total_size(segs.take(i as int))) is None);
        proof {
            assert(segs.take(i + 1).drop_last() =~= segs.take(i as int));
        }
        total = total + segment.size;
        let bytes = match reader.read_file(segment.file.as_str(), MAX_SEGMENT_BYTES) {
            Ok(bytes) => bytes,
            Err(e) => {
                assert(fails_at(e, reader, segs, chips, i as int));
                return Err(e);
            },
        };
        match check_segment_bytes(segment, bytes.as_slice(), manifest.target_chips.as_slice()) {
            Ok(()) => {},
            Err(e) => {
                assert(reader.reads_as(segs[i as int].file, MAX_SEGMENT_BYTES, Ok::<Vec<u8>, OperationError>(bytes)));
                assert(fails_at(e, reader, segs, chips, i as int));
                return Err(e);
            },
        }
        assert(reader.reads_as(segs[i as int].file, MAX_SEGMENT_BYTES, Ok::<Vec<u8>, OperationError>(bytes)));
        assert(segment_read_ok(reader, segs[i as int], chips));
        assert(relative_path_ok(segs[i as int].file));
        i = i + 1;
    }
    assert(segs.take(i as int) =~= segs);
    Ok(ValidatedPackage { manifest, total_bytes: total })
}

// ---------------------------------------------------------------------------
// Summaries
// ---------------------------------------------------------------------------

/// How a segment is summarized: its role, file, offset as `0x…` text and size.
pub open spec fn segment_summary_matches(x: SegmentSummary, s: SegmentView) -> bool {
    &&& x.role == s.role
    &&& x.file@ == s.file
    &&& x.size == s.size
    &&& match (x.offset, s.offset) {
        (Some(t), Some(a)) => t@ == hex_address_text(a),
        (None, None) => true,
        _ => false,
    }
}

pub fn summarize_segment(segment: &FirmwareSegment) -> (x: SegmentSummary)
    ensures
        segment_summary_matches(x, segment@),
{
    SegmentSummary {
        role: segment.role,
        file: segment.file.clone(),
        offset: match segment.offset {
            Some(a) => Some(a.to_hex_string()),
            None => None,
        },
        size: segment.size,
    }
}

/// A summary shows a checked manifest: its ids and texts, the chip names,
/// the monitor settings, whether a marker is set, and the segments.
pub open spec fn summarizes(s: PackageSummary, value: ValidatedPackage) -> bool {
    let m = value.manifest;
    &&& s.package_id@ == m.package_id@
    &&& s.display_name@ == m.display_name@
    &&& s.firmware_version@ == m.firmware_version@
    &&& s.kind == m.kind
    &&& s.target_chips@.len() == m.target_chips@.len()
    &&& forall|i: int| 0 <= i < s.target_chips@.len() ==> (#[trigger] s.target_chips@[i])@
        == chip_name(m.target_chips@[i])
    &&& s.segment_count == m.segments@.len()
    &&& s.total_bytes == value.total_bytes
    &&& s.monitor_baud == m.monitor.baud
    &&& s.success_timeout_ms == m.monitor.success_timeout_ms
    &&& s.success_marker_configured == (m.monitor.success_marker@.len() > 0)
    &&& s.segments@.len() == m.segments@.len()
    &&& forall|i: int| 0 <= i < s.segments@.len() ==> segment_summary_matches(
        #[trigger] s.segments@[i],
        m.segments@[i]@,
    )
}

impl PackageSummary {
    /// The summary of a checked manifest, with a `LegacyManifest` source; an
    /// update needs the device's layout.
    pub fn from_validated(value: &ValidatedPackage) -> (s: PackageSummary)
        ensures
            summarizes(s, *value),
            s.source == FirmwareSource::LegacyManifest,
            s.requires_device_layout == (value.manifest.kind == PackageKind::Update),
    {
        summarize_manifest(&value.manifest, value.total_bytes)
    }
}

/// The summary of a manifest whose segments hold `total_bytes`, with a
/// `LegacyManifest` source; an update needs the device's layout.
pub fn summarize_manifest(m: &FirmwareManifest, total_bytes: u64) -> (s: PackageSummary)
    ensures
        summarizes(s, ValidatedPackage { manifest: *m, total_bytes }),
        s.source == FirmwareSource::LegacyManifest,
        s.requires_device_layout == (m.kind == PackageKind::Update),
{
    let mut chips: Vec<String> = Vec::new();
    let mut i: usize = 0;
    while i < m.target_chips.len()
        invariant
            i <= m.target_chips@.len(),
            chips@.len() == i,
            forall|k: int| 0 <= k < i ==> (#[trigger] chips@[k])@ == chip_name(m.target_chips@[k]),
        decreases m.target_chips@.len() - i,
    {
        chips.push(String::from_str(m.target_chips[i].as_str()));
        i = i + 1;
    }
    let mut segments: Vec<SegmentSummary> = Vec::new();
    let mut j: usize = 0;
    while j < m.segments.len()
        invariant
            j <= m.segments@.len(),
            segments@.len() == j,
            forall|k: int| 0 <= k < j ==> segment_summary_matches(#[trigger] segments@[k], m.segments@[k]@),
        decreases m.segments@.len() - j,
    {
        segments.push(summarize_segment(&m.segments[j]));
        j = j + 1;
    }
    PackageSummary {
        package_id: m.package_id.clone(),
        display_name: m.display_name.clone(),
        firmware_version: m.firmware_version.clone(),
        kind: m.kind,
        target_chips: chips,
        segment_count: m.segments.len(),
        total_bytes,
        monitor_baud: m.monitor.baud,
        success_timeout_ms: m.monitor.success_timeout_ms,
        success_marker_configured: !m.monitor.success_marker.as_str().is_empty(),
        source: FirmwareSource::LegacyManifest,
        requires_device_layout: m.kind == PackageKind::Update,
        segments,
    }
}

} // verus!
