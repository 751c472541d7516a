use vstd::prelude::*;
use crate::digest::{sha256_digest, sha256_of};
use crate::error::{ErrorCode, OperationError, Result, fails_as};
use crate::image::{
    ESP_IMAGE_HEADER_SIZE, ESP_IMAGE_MAGIC, chip_of_image_id, image_chip_id, spec_validate_esp_image,
    validate_esp_image,
};
use crate::manifest::{
    ChipFamily, FirmwareManifest, FirmwareSegment, HexAddress, MonitorPolicy, OtaPolicy,
    HexAddressError, PackageKind, SegmentRole, all_chips, chip_name, chip_named, hex_address_text,
    spec_parse_hex_address, spec_validate_structure,
};
use crate::package::{
    error_is,
    FirmwareSource, MAX_SEGMENT_BYTES, PackageSummary, SegmentSummary, parent_component_at,
    segment_summary_matches, summarize_segment,
};
use crate::text::{decimal, hex_lower, is_blank, is_white_space, to_hex_lower, u64_to_decimal};

verus! {

/// Which package the packager builds from an ESP-IDF build.
#[derive(Debug, Clone, Copy, PartialEq, Eq, Structural)]
pub enum BuildKind {
    Factory,
    Update,
}

/// What the packager is asked to build.
#[derive(Debug, Clone, PartialEq, Eq)]
pub struct BuildOptions {
    pub kind: BuildKind,
    pub build_dir: String,
    pub output_dir: String,
    pub package_id: String,
    pub display_name: String,
    pub firmware_version: String,
    pub monitor_baud: u32,
    pub success_marker: String,
    pub success_timeout_ms: u64,
    pub rollback_enabled: bool,
    pub dry_run: bool,
    pub force: bool,
}

/// What the packager built (or would build, on a dry run).
#[derive(Debug, Clone, PartialEq, Eq)]
pub struct BuildResult {
    pub manifest: FirmwareManifest,
    pub summary: PackageSummary,
    pub output_dir: String,
    pub dry_run: bool,
}

/// A BIN of an ESP-IDF build: its role, flash offset and resolved file.
#[derive(Debug, Clone, PartialEq, Eq)]
pub struct IdfSegment {
    pub role: SegmentRole,
    pub offset: HexAddress,
    pub source: String,
}

/// An ESP-IDF build: the application's chip, the partition table offset,
/// the BINs of a factory image in flash order, and the application.
#[derive(Debug, Clone, PartialEq, Eq)]
pub struct IdfBuild {
    pub chip: String,
    pub partition_table_offset: HexAddress,
    pub factory_segments: Vec<IdfSegment>,
    pub application: IdfSegment,
}

/// The `encrypted` field of a segment in `flasher_args.json`: absent or
/// null, false (as a boolean or the text `false`), or anything else.
#[derive(Debug, Clone, Copy, PartialEq, Eq, Structural)]
pub enum EncryptedFlag {
    Unset,
    Disabled,
    Enabled,
}

/// A segment of `flasher_args.json`.
#[derive(Debug, Clone, PartialEq, Eq)]
pub struct FlasherSegment {
    pub offset: String,
    pub file: String,
    pub encrypted: EncryptedFlag,
}

/// What the packager reads from `flasher_args.json`: the offset and file
/// of every flash file, the named segments, and the declared chip.
#[derive(Debug, Clone, PartialEq, Eq)]
pub struct FlasherArgs {
    pub flash_files: Vec<(String, String)>,
    pub app: Option<FlasherSegment>,
    pub bootloader: Option<FlasherSegment>,
    pub partition_table: Option<FlasherSegment>,
    pub otadata: Option<FlasherSegment>,
    pub chip: Option<String>,
}

impl IdfSegment {
    pub fn duplicate(&self) -> (s: IdfSegment)
        ensures
            s.role == self.role,
            s.offset == self.offset,
            s.source@ == self.source@,
    {
        IdfSegment { role: self.role, offset: self.offset, source: self.source.clone() }
    }
}

// ---------------------------------------------------------------------------
// Reading flasher_args.json
// ---------------------------------------------------------------------------

/// Reads an offset of `flasher_args.json` as a `0x…` address.
pub fn parse_offset(value: &str) -> (r: Result<HexAddress>)
    ensures
        match spec_parse_hex_address(value@) {
            Ok(v) => r == Ok::<HexAddress, OperationError>(HexAddress(v)),
            Err(he) => r matches Err(e) && fails_as(
                e,
                (ErrorCode::PackageInvalid, "Неверный offset в flasher_args.json"@),
            ) && (e.detail matches Some(d) && d@ == match he {
                HexAddressError::MissingPrefix => "address must start with 0x"@,
                HexAddressError::InvalidDigits => "invalid hexadecimal address"@,
            }),
        },
{
    match HexAddress::parse(value) {
        Ok(a) => Ok(a),
        Err(e) => Err(
            OperationError::new(
                ErrorCode::PackageInvalid,
                "Неверный offset в flasher_args.json",
            ).with_detail(String::from_str(e.message())),
        ),
    }
}

/// Refuses encrypted segments, naming the file.
pub fn reject_encryption(segment: &FlasherSegment) -> (r: Result<()>)
    ensures
        (r is Ok) == (segment.encrypted != EncryptedFlag::Enabled),
        r matches Err(e) ==> fails_as(
            e,
            (ErrorCode::PackageUnsupported, "Encrypted flash segments не поддерживаются в v1"@),
        ) && (e.detail matches Some(d) && d@ == segment.file@),
{
    if segment.encrypted == EncryptedFlag::Enabled {
        return Err(
            OperationError::new(
                ErrorCode::PackageUnsupported,
                "Encrypted flash segments не поддерживаются в v1",
            ).with_detail(segment.file.clone()),
        );
    }
    Ok(())
}

/// A file named in `flasher_args.json` stays inside the build folder: no
/// `\` or `:`, not absolute, and only plain components (no leading `.`
/// and no `..`).
pub open spec fn source_text_ok(s: Seq<char>) -> bool {
    &&& forall|i: int| 0 <= i < s.len() ==> #[trigger] s[i] != '\\' && s[i] != ':'
    &&& !(s.len() > 0 && s[0] == '/')
    &&& !(s.len() > 0 && s[0] == '.' && (s.len() == 1 || s[1] == '/'))
    &&& !exists|i: int| parent_component_at(s, i)
}

pub fn check_source_text(value: &str) -> (r: Result<()>)
    ensures
        (r is Ok) == source_text_ok(value@),
        r matches Err(e) ==> fails_as(
            e,
            (ErrorCode::PackagePathInvalid, "Путь в flasher_args.json выходит за build-папку"@),
        ) && (e.detail matches Some(d) && d@ == value@),
{
    let c = crate::text::chars_of(value);
    let n = c.len();
    let mut i: usize = 0;
    while i < n
        invariant
            c@ == value@,
            n == c@.len(),
            i <= n,
            forall|k: int| 0 <= k < i ==> #[trigger] c@[k] != '\\' && c@[k] != ':',
            forall|k: int| 0 <= k < i ==> !parent_component_at(c@, k),
        decreases n - i,
    {
        let ch = c[i];
        if ch == '\\' || ch == ':' || (ch == '.' && i + 1 < n && c[i + 1] == '.' && (i == 0 || c[i
            - 1] == '/') && (i + 2 == n || c[i + 2] == '/')) {
            proof {
                if !(ch == '\\' || ch == ':') {
                    assert(parent_component_at(c@, i as int));
                }
            }
            return Err(escaping_source(value));
        }
        i = i + 1;
    }
    if n > 0 && (c[0] == '/' || (c[0] == '.' && (n == 1 || c[1] == '/'))) {
        return Err(escaping_source(value));
    }
    assert forall|k: int| !parent_component_at(value@, k) by {
        if 0 <= k < n {
        }
    }
    Ok(())
}

fn escaping_source(value: &str) -> (e: OperationError)
    ensures
        fails_as(e, (ErrorCode::PackagePathInvalid, "Путь в flasher_args.json выходит за build-папку"@)),
        e.detail matches Some(d) && d@ == value@,
{
    OperationError::new(
        ErrorCode::PackagePathInvalid,
        "Путь в flasher_args.json выходит за build-папку",
    ).with_detail(String::from_str(value))
}

/// The detail of an offset that is not a `0x…` address.
pub open spec fn hex_error_text(he: HexAddressError) -> Seq<char> {
    match he {
        HexAddressError::MissingPrefix => "address must start with 0x"@,
        HexAddressError::InvalidDigits => "invalid hexadecimal address"@,
    }
}

/// The error for an offset text that is not an address.
pub open spec fn offset_failure(e: OperationError, text: Seq<char>) -> bool {
    spec_parse_hex_address(text) matches Err(he) && fails_as(
        e,
        (ErrorCode::PackageInvalid, "Неверный offset в flasher_args.json"@),
    ) && (e.detail matches Some(d) && d@ == hex_error_text(he))
}

/// The error for a file path that leaves the build folder.
pub open spec fn source_failure(e: OperationError, text: Seq<char>) -> bool {
    !source_text_ok(text) && fails_as(
        e,
        (ErrorCode::PackagePathInvalid, "Путь в flasher_args.json выходит за build-папку"@),
    ) && (e.detail matches Some(d) && d@ == text)
}

/// The error for an encrypted segment.
pub open spec fn encryption_failure(e: OperationError, raw: FlasherSegment) -> bool {
    raw.encrypted == EncryptedFlag::Enabled && fails_as(
        e,
        (ErrorCode::PackageUnsupported, "Encrypted flash segments не поддерживаются в v1"@),
    ) && (e.detail matches Some(d) && d@ == raw.file@)
}

/// A named segment that the packager takes: unencrypted, with an address
/// for its offset and a path inside the build folder.
pub open spec fn segment_ok(raw: FlasherSegment) -> bool {
    &&& raw.encrypted != EncryptedFlag::Enabled
    &&& spec_parse_hex_address(raw.offset@) is Ok
    &&& source_text_ok(raw.file@)
}

/// The offset and file of a named segment, checked before the file is
/// looked up.
fn segment_text(raw: &FlasherSegment) -> (r: Result<HexAddress>)
    ensures
        match spec_parse_hex_address(raw.offset@) {
            Err(_) => r matches Err(e) && offset_failure(e, raw.offset@),
            Ok(v) => if source_text_ok(raw.file@) {
                r == Ok::<HexAddress, OperationError>(HexAddress(v))
            } else {
                r matches Err(e) && source_failure(e, raw.file@)
            },
        },
{
    let offset = parse_offset(raw.offset.as_str())?;
    check_source_text(raw.file.as_str())?;
    Ok(offset)
}

/// The declared chip matters when it holds more than white space.
pub open spec fn declared_chip(chip: Option<Seq<char>>) -> Option<Seq<char>> {
    match chip {
        Some(c) => if forall|i: int| 0 <= i < c.len() ==> is_white_space(#[trigger] c[i]) {
            None
        } else {
            Some(c)
        },
        None => None,
    }
}

/// The detail of an image that [`spec_validate_esp_image`] refuses: none
/// for a bad header, else the chip id in decimal or the chip's name.
pub open spec fn image_error_detail(bytes: Seq<u8>) -> Option<Seq<char>> {
    if bytes.len() < ESP_IMAGE_HEADER_SIZE || bytes[0] != ESP_IMAGE_MAGIC {
        None
    } else {
        match chip_of_image_id(image_chip_id(bytes)) {
            None => Some(decimal(image_chip_id(bytes) as nat)),
            Some(chip) => Some(chip_name(chip)),
        }
    }
}

/// The chip of a build: the application image's chip, which a declared
/// chip that is not blank must name; the failure and its detail otherwise.
pub open spec fn spec_decide_build_chip(bytes: Seq<u8>, declared: Option<Seq<char>>) -> core::result::Result<
    ChipFamily,
    (crate::error::Failure, Option<Seq<char>>),
> {
    match spec_validate_esp_image(bytes, all_chips()) {
        Err(f) => Err((f, image_error_detail(bytes))),
        Ok(image) => match declared_chip(declared) {
            None => Ok(image),
            Some(d) => match chip_named(d) {
                None => Err(((ErrorCode::PackageUnsupported, "Неподдерживаемое семейство ESP32"@), Some(d))),
                Some(family) => if family == image {
                    Ok(image)
                } else {
                    Err(
                        (
                            (
                                ErrorCode::ChipMismatch,
                                "Target chip в flasher_args.json не совпадает с application BIN"@,
                            ),
                            Some("metadata="@ + chip_name(family) + ", image="@ + chip_name(image)),
                        ),
                    )
                },
            },
        },
    }
}

/// Decides the chip of a build from its application image and the chip
/// that `flasher_args.json` declares, if any.
pub fn decide_build_chip(app_bytes: &[u8], declared: Option<&str>) -> (r: Result<ChipFamily>)
    ensures
        match (r, spec_decide_build_chip(
            app_bytes@,
            match declared {
                Some(d) => Some(d@),
                None => None,
            },
        )) {
            (Ok(a), Ok(b)) => a == b,
            (Err(e), Err(f)) => error_is(e, f),
            _ => false,
        },
{
    proof {
        reveal_strlit("metadata=");
        reveal_strlit(", image=");
    }
    let all = ChipFamily::all();
    let image_chip = validate_esp_image(app_bytes, all.as_slice())?;
    match declared {
        Some(text) => {
            if !is_blank(text) {
                assert(declared_chip(Some(text@)) == Some(text@));
                let declared_family = match ChipFamily::from_name(text) {
                    Ok(c) => c,
                    Err(e) => {
                        assert(chip_named(text@) is None);
                        return Err(e);
                    },
                };
                if declared_family != image_chip {
                    let mut detail = String::from_str("metadata=");
                    detail.append(declared_family.as_str());
                    detail.append(", image=");
                    detail.append(image_chip.as_str());
                    assert(detail@ == "metadata="@ + chip_name(declared_family) + ", image="@ + chip_name(image_chip));
                    return Err(
                        OperationError::new(
                            ErrorCode::ChipMismatch,
                            "Target chip в flasher_args.json не совпадает с application BIN",
                        ).with_detail(detail),
                    );
                }
            }
        },
        None => {},
    }
    Ok(image_chip)
}

/// Sorted by flash offset.
pub open spec fn offsets_sorted(s: Seq<IdfSegment>) -> bool {
    forall|i: int, j: int| 0 <= i < j < s.len() ==> s[i].offset.0 <= s[j].offset.0
}

/// Holds a segment with this role and offset.
pub open spec fn has_segment(s: Seq<IdfSegment>, role: SegmentRole, offset: u32) -> bool {
    exists|i: int| 0 <= i < s.len() && (#[trigger] s[i]).role == role && s[i].offset.0 == offset
}

/// The offset text of a segment in `flasher_args.json` gives this offset.
pub open spec fn offset_from(raw: Option<FlasherSegment>, offset: u32) -> bool {
    raw matches Some(r) && spec_parse_hex_address(r.offset@) == Ok::<u32, HexAddressError>(offset)
}

/// A planned segment comes from `flasher_args.json`: its offset is the one
/// written there for its role, or, for a data segment, one of the offsets
/// in `flash_files`.
pub open spec fn segment_from_args(args: FlasherArgs, x: IdfSegment) -> bool {
    match x.role {
        SegmentRole::Application => offset_from(args.app, x.offset.0),
        SegmentRole::PartitionTable => offset_from(args.partition_table, x.offset.0),
        SegmentRole::Bootloader => offset_from(args.bootloader, x.offset.0),
        SegmentRole::OtaData => offset_from(args.otadata, x.offset.0),
        SegmentRole::Data => exists|k: int|
            0 <= k < args.flash_files@.len()
                && spec_parse_hex_address((#[trigger] args.flash_files@[k]).0@) == Ok::<u32, HexAddressError>(x.offset.0),
    }
}

proof fn lemma_insert_from_args(before: Seq<IdfSegment>, p: int, s: IdfSegment, args: FlasherArgs)
    requires
        0 <= p <= before.len(),
        forall|i: int| 0 <= i < before.len() ==> segment_from_args(args, #[trigger] before[i]),
        segment_from_args(args, s),
    ensures
        forall|i: int| 0 <= i < before.insert(p, s).len() ==> segment_from_args(args, #[trigger] before.insert(p, s)[i]),
{
    assert forall|i: int| 0 <= i < before.insert(p, s).len() implies segment_from_args(args, #[trigger] before.insert(p, s)[i]) by {
        if i < p {
            assert(before.insert(p, s)[i] == before[i]);
        } else if i > p {
            assert(before.insert(p, s)[i] == before[i - 1]);
        }
    }
}

/// Inserts a segment after every segment whose offset is not greater.
#[verifier::rlimit(40)]
fn insert_by_offset(v: &mut Vec<IdfSegment>, s: IdfSegment)
    requires
        offsets_sorted(old(v)@),
    ensures
        offsets_sorted(final(v)@),
        final(v)@.len() == old(v)@.len() + 1,
        forall|k: int| 0 <= k < old(v)@.len() ==> final(v)@.contains(#[trigger] old(v)@[k]),
        final(v)@.contains(s),
        forall|role: SegmentRole, offset: u32| has_segment(old(v)@, role, offset) ==> #[trigger] has_segment(
            final(v)@,
            role,
            offset,
        ),
        has_segment(final(v)@, s.role, s.offset.0),
        exists|p: int| 0 <= p <= old(v)@.len() && final(v)@ == old(v)@.insert(p, s),
{
    let mut p: usize = v.len();
    while p > 0 && v[p - 1].offset.0 > s.offset.0
        invariant
            p <= v@.len(),
            v@ == old(v)@,
            forall|k: int| p <= k < v@.len() ==> v@[k].offset.0 > s.offset.0,
        decreases p,
    {
        p = p - 1;
    }
    let ghost before = v@;
    v.insert(p, s);
    assert(v@ == before.insert(p as int, s));
    assert(v@[p as int] == s);
    assert forall|k: int| 0 <= k < before.len() implies v@.contains(#[trigger] before[k]) by {
        if k < p {
            assert(v@[k] == before[k]);
        } else {
            assert(v@[k + 1] == before[k]);
        }
    }
    assert forall|role: SegmentRole, offset: u32| has_segment(before, role, offset) implies #[trigger] has_segment(
        v@,
        role,
        offset,
    ) by {
        let k = choose|k: int| 0 <= k < before.len() && (#[trigger] before[k]).role == role && before[k].offset.0
            == offset;
        if k < p {
            assert(v@[k] == before[k]);
        } else {
            assert(v@[k + 1] == before[k]);
        }
    }
    assert forall|i: int, j: int| 0 <= i < j < v@.len() implies v@[i].offset.0 <= v@[j].offset.0 by {
        if j < p {
            assert(v@[i] == before[i] && v@[j] == before[j]);
        } else if j == p {
            assert(v@[i] == before[i]);
        } else if i < p {
            assert(v@[i] == before[i] && v@[j] == before[j - 1]);
        } else if i == p {
            assert(v@[j] == before[j - 1]);
        } else {
            assert(v@[i] == before[i - 1] && v@[j] == before[j - 1]);
        }
    }
}

/// Whether a resolved file is one of the given ones.
fn named(files: &Vec<String>, source: &String) -> (b: bool)
    ensures
        b == exists|k: int| 0 <= k < files@.len() && files@[k]@ == source@,
{
    let mut k: usize = 0;
    while k < files.len()
        invariant
            k <= files@.len(),
            forall|j: int| 0 <= j < k ==> files@[j]@ != source@,
        decreases files@.len() - k,
    {
        if files[k] == *source {
            return true;
        }
        k = k + 1;
    }
    false
}

/// The error for a named segment: encrypted, an offset that is not an
/// address, or a path outside the build folder.
pub open spec fn segment_failure(e: OperationError, raw: FlasherSegment) -> bool {
    ||| encryption_failure(e, raw)
    ||| offset_failure(e, raw.offset@)
    ||| source_failure(e, raw.file@)
}

/// The chip that `flasher_args.json` declares, as text.
pub open spec fn declared_text(args: FlasherArgs) -> Option<Seq<char>> {
    match args.chip {
        Some(c) => Some(c@),
        None => None,
    }
}

/// The errors that `flasher_args.json` alone gives: a missing application
/// or partition table, a named segment that fails its checks, or a flash
/// file with a bad path or offset.
pub open spec fn idf_check_failed(e: OperationError, args: FlasherArgs) -> bool {
    ||| args.app is None && fails_as(e, (ErrorCode::PackageInvalid, "flasher_args.json не содержит application"@))
    ||| args.partition_table is None && fails_as(
        e,
        (ErrorCode::PackageInvalid, "flasher_args.json не содержит partition-table"@),
    )
    ||| args.app matches Some(raw) && segment_failure(e, raw)
    ||| args.partition_table matches Some(raw) && segment_failure(e, raw)
    ||| args.bootloader matches Some(raw) && segment_failure(e, raw)
    ||| args.otadata matches Some(raw) && segment_failure(e, raw)
    ||| exists|k: int|
        0 <= k < args.flash_files@.len() && (source_failure(e, (#[trigger] args.flash_files@[k]).1@)
            || offset_failure(e, args.flash_files@[k].0@))
}

/// A file name that `flasher_args.json` gives, which the packager looks up.
pub open spec fn idf_file(args: FlasherArgs, s: String) -> bool {
    ||| args.app matches Some(raw) && s == raw.file
    ||| args.partition_table matches Some(raw) && s == raw.file
    ||| args.bootloader matches Some(raw) && s == raw.file
    ||| args.otadata matches Some(raw) && s == raw.file
    ||| exists|k: int| 0 <= k < args.flash_files@.len() && s == (#[trigger] args.flash_files@[k]).1
}

/// A `flasher_args.json` that passes every check made on it alone.
pub open spec fn idf_args_ok(args: FlasherArgs) -> bool {
    &&& args.app matches Some(raw) && segment_ok(raw)
    &&& args.partition_table matches Some(raw) && segment_ok(raw)
    &&& args.bootloader matches Some(raw) ==> segment_ok(raw)
    &&& args.otadata matches Some(raw) ==> segment_ok(raw)
    &&& forall|k: int|
        0 <= k < args.flash_files@.len() ==> source_text_ok((#[trigger] args.flash_files@[k]).1@)
            && spec_parse_hex_address(args.flash_files@[k].0@) is Ok
}

/// Checks a named segment and looks up its file.
fn checked_segment(
    raw: &FlasherSegment,
    resolve: &mut impl FnMut(String) -> Result<String>,
    Ghost(args): Ghost<FlasherArgs>,
) -> (r: Result<(HexAddress, String)>)
    requires
        forall|s: String| call_requires(*old(resolve), (s,)),
        idf_file(args, raw.file),
    ensures
        *final(resolve) == *old(resolve),
        r matches Ok((offset, source)) ==> segment_ok(*raw)
            && spec_parse_hex_address(raw.offset@) == Ok::<u32, HexAddressError>(offset.0)
            && call_ensures(*old(resolve), (raw.file,), Ok::<String, OperationError>(source)),
        r matches Err(e) ==> segment_failure(e, *raw) || call_ensures(
            *old(resolve),
            (raw.file,),
            Err::<String, OperationError>(e),
        ),
        segment_ok(*raw) && (forall|x: Result<String>|
            #[trigger] call_ensures(*old(resolve), (raw.file,), x) ==> x is Ok) ==> r is Ok,
{
    broadcast use vstd::function::group_function_axioms;
    reject_encryption(raw)?;
    let offset = segment_text(raw)?;
    let source = resolve(raw.file.clone())?;
    Ok((offset, source))
}

/// Reads an ESP-IDF build from its `flasher_args.json`: the application
/// and partition table must be named and unencrypted; the application's
/// image decides the chip with the declared chip ([`decide_build_chip`]);
/// the factory segments are the bootloader, partition table, `otadata`,
/// application and every other flash file, in flash order. `resolve` finds
/// a checked file in the build folder; `read` gives the application's bytes.
/// It fails only with an error of `flasher_args.json` itself, an error of
/// `resolve` for one of its files, or an error of `read` or of the chip
/// decision for the application; it succeeds when none of these comes.
#[verifier::loop_isolation(false)]
pub fn plan_idf_build(
    args: FlasherArgs,
    mut resolve: impl FnMut(String) -> Result<String>,
    mut read: impl FnMut(String) -> Result<Vec<u8>>,
) -> (r: Result<IdfBuild>)
    requires
        forall|s: String| call_requires(resolve, (s,)),
        forall|s: String| call_requires(read, (s,)),
    ensures
        args.app is None ==> (r matches Err(e) && fails_as(
            e,
            (ErrorCode::PackageInvalid, "flasher_args.json не содержит application"@),
        )),
        args.app is Some && args.partition_table is None ==> (r matches Err(e) && fails_as(
            e,
            (ErrorCode::PackageInvalid, "flasher_args.json не содержит partition-table"@),
        )),
        args.app matches Some(a) && args.partition_table is Some && a.encrypted == EncryptedFlag::Enabled
            ==> (r matches Err(e) && encryption_failure(e, args.app->0)),
        args.app matches Some(a) && args.partition_table matches Some(p) && a.encrypted
            != EncryptedFlag::Enabled && p.encrypted == EncryptedFlag::Enabled ==> (r matches Err(e)
            && encryption_failure(e, args.partition_table->0)),
        r matches Err(e) ==> {
            ||| idf_check_failed(e, args)
            ||| exists|s: String|
                idf_file(args, s) && #[trigger] call_ensures(resolve, (s,), Err::<String, OperationError>(e))
            ||| args.app matches Some(a) && exists|src: String|
                #[trigger] call_ensures(resolve, (a.file,), Ok::<String, OperationError>(src)) && (call_ensures(
                    read,
                    (src,),
                    Err::<Vec<u8>, OperationError>(e),
                ) || exists|b: Vec<u8>|
                    #[trigger] call_ensures(read, (src,), Ok::<Vec<u8>, OperationError>(b))
                        && (spec_decide_build_chip(b@, declared_text(args)) matches Err(f) && error_is(e, f)))
        },
        idf_args_ok(args) && (forall|s: String, x: Result<String>|
            #[trigger] call_ensures(resolve, (s,), x) ==> x is Ok) && (forall|s: String, x: Result<Vec<u8>>|
            #[trigger] call_ensures(read, (s,), x) ==> (x matches Ok(b) && spec_decide_build_chip(
                b@,
                declared_text(args),
            ) is Ok)) ==> r is Ok,
        r matches Ok(b) ==> {
            let a = args.app->0;
            let p = args.partition_table->0;
            &&& spec_parse_hex_address(a.offset@) matches Ok(ao) && b.application.offset.0 == ao
                && b.application.role == SegmentRole::Application
            &&& spec_parse_hex_address(p.offset@) matches Ok(po) && b.partition_table_offset.0
                == po && has_segment(b.factory_segments@, SegmentRole::PartitionTable, po)
            &&& has_segment(b.factory_segments@, SegmentRole::Application, b.application.offset.0)
            &&& source_text_ok(a.file@) && source_text_ok(p.file@)
            &&& offsets_sorted(b.factory_segments@)
            &&& chip_named(b.chip@) is Some
            &&& (declared_chip(declared_text(args)) matches Some(d) ==> chip_named(d) == chip_named(b.chip@))
            &&& (args.bootloader matches Some(x) ==> spec_parse_hex_address(x.offset@) matches Ok(o)
                && has_segment(b.factory_segments@, SegmentRole::Bootloader, o))
            &&& (args.otadata matches Some(x) ==> spec_parse_hex_address(x.offset@) matches Ok(o)
                && has_segment(b.factory_segments@, SegmentRole::OtaData, o))
            &&& forall|i: int|
                0 <= i < b.factory_segments@.len() ==> segment_from_args(args, #[trigger] b.factory_segments@[i])
            &&& call_ensures(resolve, (a.file,), Ok::<String, OperationError>(b.application.source))
            &&& exists|bytes: Vec<u8>|
                #[trigger] call_ensures(read, (b.application.source,), Ok::<Vec<u8>, OperationError>(bytes))
                    && (spec_decide_build_chip(bytes@, declared_text(args)) matches Ok(c) && b.chip@ == chip_name(c))
        },
{
    broadcast use vstd::function::group_function_axioms;
    let ghost resolve0 = resolve;
    let ghost read0 = read;
    let application_raw = match &args.app {
        Some(a) => a,
        None => {
            return Err(
                OperationError::new(
                    ErrorCode::PackageInvalid,
                    "flasher_args.json не содержит application",
                ),
            );
        },
    };
    let partition_raw = match &args.partition_table {
        Some(p) => p,
        None => {
            return Err(
                OperationError::new(
                    ErrorCode::PackageInvalid,
                    "flasher_args.json не содержит partition-table",
                ),
            );
        },
    };
    reject_encryption(application_raw)?;
    reject_encryption(partition_raw)?;
    let (application_offset, application_source) = match checked_segment(
        application_raw,
        &mut resolve,
        Ghost(args),
    ) {
        Ok(found) => found,
        Err(e) => {
            return Err(e);
        },
    };
    let application = IdfSegment {
        role: SegmentRole::Application,
        offset: application_offset,
        source: application_source,
    };
    let (partition_offset, partition_source) = match checked_segment(
        partition_raw,
        &mut resolve,
        Ghost(args),
    ) {
        Ok(found) => found,
        Err(e) => {
            return Err(e);
        },
    };
    let partition_table = IdfSegment {
        role: SegmentRole::PartitionTable,
        offset: partition_offset,
        source: partition_source,
    };
    let application_name = application.source.clone();
    let application_bytes = match read(application_name) {
        Ok(bytes) => bytes,
        Err(e) => {
            assert(call_ensures(read0, (application.source,), Err::<Vec<u8>, OperationError>(e)));
            return Err(e);
        },
    };
    let declared: Option<&str> = match &args.chip {
        Some(c) => Some(c.as_str()),
        None => None,
    };
    let image_chip = match decide_build_chip(application_bytes.as_slice(), declared) {
        Ok(c) => c,
        Err(e) => {
            assert(call_ensures(read0, (application.source,), Ok::<Vec<u8>, OperationError>(application_bytes)));
            return Err(e);
        },
    };
    assert(call_ensures(read0, (application.source,), Ok::<Vec<u8>, OperationError>(application_bytes)));
    let chip = String::from_str(image_chip.as_str());
    proof {
        crate::manifest::lemma_chip_name_roundtrip(image_chip);
    }
    let mut segments: Vec<IdfSegment> = Vec::new();
    let mut named_files: Vec<String> = Vec::new();
    match &args.bootloader {
        Some(raw) => {
            let (offset, source) = match checked_segment(raw, &mut resolve, Ghost(args)) {
                Ok(found) => found,
                Err(e) => {
                    return Err(e);
                },
            };
            named_files.push(source.clone());
            let item = IdfSegment { role: SegmentRole::Bootloader, offset, source };
            let ghost before = segments@;
            let ghost it = item;
            insert_by_offset(&mut segments, item);
            proof {
                let p = choose|p: int| 0 <= p <= before.len() && segments@ == before.insert(p, it);
                lemma_insert_from_args(before, p, it, args);
            }
        },
        None => {},
    }
    named_files.push(partition_table.source.clone());
    let item = partition_table.duplicate();
    let ghost before = segments@;
    let ghost it = item;
    insert_by_offset(&mut segments, item);
    proof {
        let p = choose|p: int| 0 <= p <= before.len() && segments@ == before.insert(p, it);
        lemma_insert_from_args(before, p, it, args);
    }
    match &args.otadata {
        Some(raw) => {
            let (offset, source) = match checked_segment(raw, &mut resolve, Ghost(args)) {
                Ok(found) => found,
                Err(e) => {
                    return Err(e);
                },
            };
            named_files.push(source.clone());
            let item = IdfSegment { role: SegmentRole::OtaData, offset, source };
            let ghost before = segments@;
            let ghost it = item;
            insert_by_offset(&mut segments, item);
            proof {
                let p = choose|p: int| 0 <= p <= before.len() && segments@ == before.insert(p, it);
                lemma_insert_from_args(before, p, it, args);
            }
        },
        None => {},
    }
    named_files.push(application.source.clone());
    let item = application.duplicate();
    let ghost before = segments@;
    let ghost it = item;
    insert_by_offset(&mut segments, item);
    proof {
        let p = choose|p: int| 0 <= p <= before.len() && segments@ == before.insert(p, it);
        lemma_insert_from_args(before, p, it, args);
    }
    let mut k: usize = 0;
    while k < args.flash_files.len()
        invariant
            offsets_sorted(segments@),
            has_segment(segments@, SegmentRole::Application, application.offset.0),
            args.bootloader matches Some(x) ==> spec_parse_hex_address(x.offset@) matches Ok(o)
                && has_segment(segments@, SegmentRole::Bootloader, o),
            args.otadata matches Some(x) ==> spec_parse_hex_address(x.offset@) matches Ok(o)
                && has_segment(segments@, SegmentRole::OtaData, o),
            has_segment(segments@, SegmentRole::PartitionTable, partition_table.offset.0),
            forall|s: String| call_requires(resolve, (s,)),
            resolve == resolve0,
            forall|i: int| 0 <= i < segments@.len() ==> segment_from_args(args, #[trigger] segments@[i]),
        decreases args.flash_files@.len() - k,
    {
        let (offset_text, relative) = &args.flash_files[k];
        assert(args.flash_files@[k as int].1 == *relative && args.flash_files@[k as int].0 == *offset_text);
        if let Err(e) = check_source_text(relative.as_str()) {
            assert(source_failure(e, args.flash_files@[k as int].1@));
            return Err(e);
        }
        let relative_name = relative.clone();
        let source = match resolve(relative_name) {
            Ok(source) => source,
            Err(e) => {
                assert(call_ensures(resolve0, (relative_name,), Err::<String, OperationError>(e)));
                assert(idf_file(args, relative_name));
                return Err(e);
            },
        };
        if !named(&named_files, &source) {
            let offset = match parse_offset(offset_text.as_str()) {
                Ok(offset) => offset,
                Err(e) => {
                    assert(offset_failure(e, args.flash_files@[k as int].0@));
                    return Err(e);
                },
            };
            let item = IdfSegment { role: SegmentRole::Data, offset, source };
            let ghost before = segments@;
            let ghost it = item;
            assert(segment_from_args(args, it)) by {
                assert(args.flash_files@[k as int].0@ == offset_text@);
            }
            insert_by_offset(&mut segments, item);
            proof {
                let p = choose|p: int| 0 <= p <= before.len() && segments@ == before.insert(p, it);
                lemma_insert_from_args(before, p, it, args);
            }
        }
        k = k + 1;
    }
    Ok(
        IdfBuild {
            chip,
            partition_table_offset: partition_table.offset,
            factory_segments: segments,
            application,
        },
    )
}

// ---------------------------------------------------------------------------
// Planning the package
// ---------------------------------------------------------------------------

/// The name of a role in a factory package's file names.
pub open spec fn role_file_word(role: SegmentRole) -> Seq<char> {
    match role {
        SegmentRole::Bootloader => "bootloader"@,
        SegmentRole::PartitionTable => "partition-table"@,
        SegmentRole::Application => "application"@,
        SegmentRole::OtaData => "ota-data"@,
        SegmentRole::Data => "data"@,
    }
}

/// The file name of a packaged segment: `application.bin` in an update;
/// in a factory package, the position with at least two digits, a dash,
/// the role and `.bin`.
pub open spec fn spec_output_name(role: SegmentRole, index: nat, kind: BuildKind) -> Seq<char> {
    match kind {
        BuildKind::Update => "application.bin"@,
        BuildKind::Factory => (if index < 10 {
            "0"@ + decimal(index)
        } else {
            decimal(index)
        }) + "-"@ + role_file_word(role) + ".bin"@,
    }
}

pub fn output_name(role: SegmentRole, index: usize, kind: BuildKind) -> (s: String)
    ensures
        s@ == spec_output_name(role, index as nat, kind),
{
    proof {
        reveal_strlit("application.bin");
        reveal_strlit("0");
        reveal_strlit("-");
        reveal_strlit(".bin");
    }
    if kind == BuildKind::Update {
        return String::from_str("application.bin");
    }
    let mut s = if index < 10 {
        String::from_str("0")
    } else {
        String::new()
    };
    let number = u64_to_decimal(index as u64);
    s.append(number.as_str());
    s.append("-");
    s.append(
        match role {
            SegmentRole::Bootloader => "bootloader",
            SegmentRole::PartitionTable => "partition-table",
            SegmentRole::Application => "application",
            SegmentRole::OtaData => "ota-data",
            SegmentRole::Data => "data",
        },
    );
    s.append(".bin");
    s
}

/// The BINs a package takes from a build: every factory segment, or the
/// application alone.
pub open spec fn spec_selected(build: IdfBuild, kind: BuildKind) -> Seq<IdfSegment> {
    match kind {
        BuildKind::Factory => build.factory_segments@,
        BuildKind::Update => seq![build.application],
    }
}

pub fn selected_segments(build: &IdfBuild, kind: BuildKind) -> (v: Vec<IdfSegment>)
    ensures
        v@.len() == spec_selected(*build, kind).len(),
        forall|i: int| 0 <= i < v@.len() ==> {
            let a = #[trigger] v@[i];
            let b = spec_selected(*build, kind)[i];
            a.role == b.role && a.offset == b.offset && a.source@ == b.source@
        },
{
    let mut v: Vec<IdfSegment> = Vec::new();
    match kind {
        BuildKind::Factory => {
            let mut i: usize = 0;
            while i < build.factory_segments.len()
                invariant
                    i <= build.factory_segments@.len(),
                    v@.len() == i,
                    forall|k: int| 0 <= k < i ==> {
                        let a = #[trigger] v@[k];
                        let b = build.factory_segments@[k];
                        a.role == b.role && a.offset == b.offset && a.source@ == b.source@
                    },
                decreases build.factory_segments@.len() - i,
            {
                v.push(build.factory_segments[i].duplicate());
                i = i + 1;
            }
        },
        BuildKind::Update => {
            v.push(build.application.duplicate());
        },
    }
    v
}

/// One packaged segment from a BIN of the build: it must hold 1 byte to
/// 64 MiB; a factory segment keeps its offset.
pub fn plan_segment(source: &IdfSegment, index: usize, kind: BuildKind, bytes: &[u8]) -> (r: Result<FirmwareSegment>)
    ensures
        bytes@.len() == 0 || bytes@.len() > MAX_SEGMENT_BYTES ==> (r matches Err(e) && fails_as(
            e,
            (ErrorCode::PackageInvalid, "BIN пуст или превышает допустимый размер"@),
        ) && (e.detail matches Some(d) && d@ == source.source@)),
        0 < bytes@.len() <= MAX_SEGMENT_BYTES ==> (r matches Ok(s) && {
            &&& s.role == source.role
            &&& s.file@ == spec_output_name(source.role, index as nat, kind)
            &&& s.offset == (if kind == BuildKind::Factory {
                Some(source.offset)
            } else {
                None
            })
            &&& s.size == bytes@.len()
            &&& s.sha256@ == hex_lower(sha256_digest(bytes@))
        }),
{
    if bytes.len() == 0 || bytes.len() as u64 > MAX_SEGMENT_BYTES {
        return Err(
            OperationError::new(
                ErrorCode::PackageInvalid,
                "BIN пуст или превышает допустимый размер",
            ).with_detail(source.source.clone()),
        );
    }
    let digest = sha256_of(bytes);
    Ok(
        FirmwareSegment {
            role: source.role,
            file: output_name(source.role, index, kind),
            offset: if kind == BuildKind::Factory {
                Some(source.offset)
            } else {
                None
            },
            size: bytes.len() as u64,
            sha256: to_hex_lower(digest.as_slice()),
        },
    )
}

/// A read of the file named `source` gave the bytes that this packaged
/// segment describes: their length and SHA-256.
pub open spec fn read_as_segment<F: FnMut(String) -> Result<Vec<u8>>>(read: F, source: Seq<char>, s: FirmwareSegment) -> bool {
    exists|name: String, bytes: Vec<u8>|
        name@ == source && #[trigger] call_ensures(read, (name,), Ok::<Vec<u8>, OperationError>(bytes))
            && s.size == bytes@.len() && s.sha256@ == hex_lower(sha256_digest(bytes@))
}

/// A manifest planned from a build: the options' ids, texts and monitor
/// policy, the build's chip and partition table offset, and one segment per
/// selected BIN, described from the bytes `read` gave for it.
pub open spec fn planned_from<F: FnMut(String) -> Result<Vec<u8>>>(
    m: FirmwareManifest,
    build: IdfBuild,
    options: BuildOptions,
    read: F,
) -> bool {
    let selected = spec_selected(build, options.kind);
    &&& m.schema_version == 1
    &&& m.package_id@ == options.package_id@
    &&& m.display_name@ == options.display_name@
    &&& m.firmware_version@ == options.firmware_version@
    &&& m.kind == (if options.kind == BuildKind::Factory {
        PackageKind::Factory
    } else {
        PackageKind::Update
    })
    &&& chip_named(build.chip@) matches Some(c) && m.target_chips@ == seq![c]
    &&& m.partition_table_offset == build.partition_table_offset
    &&& m.monitor.baud == options.monitor_baud
    &&& m.monitor.success_marker@ == options.success_marker@
    &&& m.monitor.success_timeout_ms == options.success_timeout_ms
    &&& m.ota.rollback_enabled == options.rollback_enabled
    &&& m.segments@.len() == selected.len()
    &&& forall|i: int| 0 <= i < m.segments@.len() ==> {
        let s = #[trigger] m.segments@[i];
        &&& s.role == selected[i].role
        &&& s.file@ == spec_output_name(selected[i].role, i as nat, options.kind)
        &&& s.offset == (if options.kind == BuildKind::Factory {
            Some(selected[i].offset)
        } else {
            None
        })
        &&& 0 < s.size <= MAX_SEGMENT_BYTES
        &&& read_as_segment(read, selected[i].source@, s)
    }
}

/// Why planning a manifest can stop: a read of a selected BIN failed with
/// this error; a read gave an empty or oversized BIN; the build's chip is
/// not a supported family; or the planned manifest fails the manifest checks.
pub open spec fn plan_failed<F: FnMut(String) -> Result<Vec<u8>>>(
    e: OperationError,
    build: IdfBuild,
    options: BuildOptions,
    read: F,
) -> bool {
    let selected = spec_selected(build, options.kind);
    ||| exists|k: int, name: String|
        0 <= k < selected.len() && name@ == (#[trigger] selected[k]).source@
            && #[trigger] call_ensures(read, (name,), Err::<Vec<u8>, OperationError>(e))
    ||| exists|k: int, name: String, bytes: Vec<u8>|
        0 <= k < selected.len() && name@ == (#[trigger] selected[k]).source@
            && #[trigger] call_ensures(read, (name,), Ok::<Vec<u8>, OperationError>(bytes))
            && (bytes@.len() == 0 || bytes@.len() > MAX_SEGMENT_BYTES)
            && fails_as(e, (ErrorCode::PackageInvalid, "BIN пуст или превышает допустимый размер"@))
            && (e.detail matches Some(d) && d@ == selected[k].source@)
    ||| chip_named(build.chip@) is None
        && fails_as(e, (ErrorCode::PackageUnsupported, "Неподдерживаемое семейство ESP32"@))
        && (e.detail matches Some(d) && d@ == build.chip@)
    ||| exists|m: FirmwareManifest|
        #[trigger] planned_from(m, build, options, read)
            && (spec_validate_structure(m@) matches Err(f) && fails_as(e, f))
}

/// The manifest of a package built from an ESP-IDF build (see
/// [`planned_from`]); it must pass the manifest checks. It fails only as
/// [`plan_failed`] says.
#[verifier::loop_isolation(false)]
pub fn plan_manifest(
    build: &IdfBuild,
    options: &BuildOptions,
    mut read: impl FnMut(String) -> Result<Vec<u8>>,
) -> (r: Result<FirmwareManifest>)
    requires
        forall|s: String| call_requires(read, (s,)),
    ensures
        r matches Ok(m) ==> spec_validate_structure(m@) is Ok && planned_from(m, *build, *options, read),
        r matches Err(e) ==> plan_failed(e, *build, *options, read),
{
    broadcast use vstd::function::group_function_axioms;
    let ghost read0 = read;
    let sources = selected_segments(build, options.kind);
    let ghost selected = spec_selected(*build, options.kind);
    let mut segments: Vec<FirmwareSegment> = Vec::new();
    let mut i: usize = 0;
    while i < sources.len()
        invariant
            read == read0,
            i <= sources@.len(),
            segments@.len() == i,
            forall|s: String| call_requires(read, (s,)),
            forall|k: int| 0 <= k < i ==> {
                let s = #[trigger] segments@[k];
                &&& s.role == selected[k].role
                &&& s.file@ == spec_output_name(selected[k].role, k as nat, options.kind)
                &&& s.offset == (if options.kind == BuildKind::Factory {
                    Some(selected[k].offset)
                } else {
                    None
                })
                &&& 0 < s.size <= MAX_SEGMENT_BYTES
                &&& read_as_segment(read, selected[k].source@, s)
            },
        decreases sources@.len() - i,
    {
        let name = sources[i].source.clone();
        let outcome = read(name);
        let bytes = match outcome {
            Ok(bytes) => bytes,
            Err(e) => {
                assert(call_ensures(read0, (name,), Err::<Vec<u8>, OperationError>(e)));
                assert(0 <= i < selected.len() && name@ == selected[i as int].source@);
                return Err(e);
            },
        };
        let segment = match plan_segment(&sources[i], i, options.kind, bytes.as_slice()) {
            Ok(segment) => segment,
            Err(e) => {
                assert(call_ensures(read0, (name,), Ok::<Vec<u8>, OperationError>(bytes)));
                assert(0 <= i < selected.len() && name@ == selected[i as int].source@);
                return Err(e);
            },
        };
        assert(read_as_segment(read, selected[i as int].source@, segment)) by {
            assert(call_ensures(read, (name,), Ok::<Vec<u8>, OperationError>(bytes)));
        }
        segments.push(segment);
        i = i + 1;
    }
    let chip = match ChipFamily::from_name(build.chip.as_str()) {
        Ok(chip) => chip,
        Err(e) => {
            return Err(e);
        },
    };
    let mut target_chips: Vec<ChipFamily> = Vec::new();
    target_chips.push(chip);
    let manifest = FirmwareManifest {
        schema_version: 1,
        package_id: options.package_id.clone(),
        display_name: options.display_name.clone(),
        firmware_version: options.firmware_version.clone(),
        kind: match options.kind {
            BuildKind::Factory => PackageKind::Factory,
            BuildKind::Update => PackageKind::Update,
        },
        target_chips,
        partition_table_offset: build.partition_table_offset,
        monitor: MonitorPolicy {
            baud: options.monitor_baud,
            success_marker: options.success_marker.clone(),
            success_timeout_ms: options.success_timeout_ms,
        },
        ota: OtaPolicy { rollback_enabled: options.rollback_enabled },
        segments,
    };
    assert(manifest.target_chips@ =~= seq![chip]);
    assert(planned_from(manifest, *build, *options, read0));
    match manifest.validate_structure() {
        Ok(()) => Ok(manifest),
        Err(e) => Err(e),
    }
}

/// The summary a dry run shows: the planned manifest with the total of its
/// segment sizes.
pub fn dry_run_summary(planned: &FirmwareManifest) -> (s: PackageSummary)
    requires
        crate::package::total_size(crate::manifest::segments_view(planned.segments@)) <= u64::MAX,
    ensures
        crate::package::summarizes(
            s,
            crate::package::ValidatedPackage {
                manifest: *planned,
                total_bytes: crate::package::total_size(crate::manifest::segments_view(planned.segments@)) as u64,
            },
        ),
        s.source == FirmwareSource::LegacyManifest,
        s.requires_device_layout == (planned.kind == PackageKind::Update),
{
    let ghost segs = crate::manifest::segments_view(planned.segments@);
    let mut total: u64 = 0;
    let mut i: usize = 0;
    while i < planned.segments.len()
        invariant
            segs == crate::manifest::segments_view(planned.segments@),
            i <= segs.len(),
            total == crate::package::total_size(segs.take(i as int)),
            crate::package::total_size(segs) <= u64::MAX,
        decreases segs.len() - i,
    {
        proof {
            assert(segs.take(i + 1).drop_last() =~= segs.take(i as int));
            lemma_total_prefix(segs, i + 1);
        }
        total = total + planned.segments[i].size;
        i = i + 1;
    }
    assert(segs.take(i as int) =~= segs);
    crate::package::summarize_manifest(planned, total)
}

proof fn lemma_total_prefix(s: Seq<crate::manifest::SegmentView>, k: int)
    requires
        0 <= k <= s.len(),
    ensures
        crate::package::total_size(s.take(k)) <= crate::package::total_size(s),
    decreases s.len() - k,
{
    if k < s.len() {
        lemma_total_prefix(s, k + 1);
        assert(s.take(k + 1).drop_last() =~= s.take(k));
    } else {
        assert(s.take(k) =~= s);
    }
}

/// An existing output folder is replaced only when forced.
pub fn check_output_absent(output_exists: bool, force: bool) -> (r: Result<()>)
    ensures
        (r is Ok) == (!output_exists || force),
        r matches Err(e) ==> fails_as(
            e,
            (ErrorCode::PackagePathInvalid, "Output-папка уже существует; используйте --force"@),
        ),
{
    if output_exists && !force {
        return Err(
            OperationError::new(
                ErrorCode::PackagePathInvalid,
                "Output-папка уже существует; используйте --force",
            ),
        );
    }
    Ok(())
}

/// The packager's exit status for an error: 4 for a bad package, 6 for a
/// file system failure, 10 for anything else.
pub open spec fn spec_exit_code(code: ErrorCode) -> i32 {
    match code {
        ErrorCode::PackageInvalid | ErrorCode::PackageUnsupported | ErrorCode::PackagePathInvalid
        | ErrorCode::PackageFileMissing | ErrorCode::HashMismatch => 4,
        ErrorCode::IoError | ErrorCode::DataDirectoryUnwritable => 6,
        _ => 10,
    }
}

pub fn exit_code(code: ErrorCode) -> (c: i32)
    ensures
        c == spec_exit_code(code),
{
    match code {
        ErrorCode::PackageInvalid | ErrorCode::PackageUnsupported | ErrorCode::PackagePathInvalid
        | ErrorCode::PackageFileMissing | ErrorCode::HashMismatch => 4,
        ErrorCode::IoError | ErrorCode::DataDirectoryUnwritable => 6,
        _ => 10,
    }
}

} // verus!
