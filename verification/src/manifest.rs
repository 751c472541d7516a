use vstd::prelude::*;
use crate::error::{ErrorCode, Failure, OperationError, fails_as, outcome_is};
use crate::marker::MAX_MARKER_BYTES;
use crate::ranges::{find_overlap, has_overlap, overlapping_pair};
use crate::text::{
    ascii_lower, char_is_control, char_is_white_space, decimal, eq_ascii_lower, hex_char,
    hex_upper, is_control, is_white_space, u32_to_hex_upper, u64_to_decimal, utf8_len,
};

verus! {

pub const SCHEMA_VERSION: u32 = 1;
pub const MAX_TEXT_LEN: usize = 120;
pub const MAX_VERSION_LEN: usize = 64;

/// Whether a package is flashed from scratch or updates an application.
#[derive(Debug, Clone, Copy, PartialEq, Eq, Structural)]
pub enum PackageKind {
    Factory,
    Update,
}

/// The ESP32 chip families this tool supports.
#[derive(Debug, Clone, Copy, PartialEq, Eq, Hash, Structural)]
pub enum ChipFamily {
    Esp32,
    Esp32c2,
    Esp32c3,
    Esp32c5,
    Esp32c6,
    Esp32h2,
    Esp32p4,
    Esp32s2,
    Esp32s3,
}

/// The lower-case name of a chip family.
pub open spec fn chip_name(chip: ChipFamily) -> Seq<char> {
    match chip {
        ChipFamily::Esp32 => "esp32"@,
        ChipFamily::Esp32c2 => "esp32c2"@,
        ChipFamily::Esp32c3 => "esp32c3"@,
        ChipFamily::Esp32c5 => "esp32c5"@,
        ChipFamily::Esp32c6 => "esp32c6"@,
        ChipFamily::Esp32h2 => "esp32h2"@,
        ChipFamily::Esp32p4 => "esp32p4"@,
        ChipFamily::Esp32s2 => "esp32s2"@,
        ChipFamily::Esp32s3 => "esp32s3"@,
    }
}

/// Where the second-stage bootloader lives on each chip family.
pub open spec fn chip_bootloader_address(chip: ChipFamily) -> u32 {
    match chip {
        ChipFamily::Esp32c2 | ChipFamily::Esp32c3 | ChipFamily::Esp32c6 | ChipFamily::Esp32h2
        | ChipFamily::Esp32s3 => 0x0000,
        ChipFamily::Esp32 | ChipFamily::Esp32s2 => 0x1000,
        ChipFamily::Esp32c5 | ChipFamily::Esp32p4 => 0x2000,
    }
}

/// The chip family a name denotes, ignoring ASCII case.
pub open spec fn chip_named(name: Seq<char>) -> Option<ChipFamily> {
    let l = ascii_lower(name);
    if l == "esp32"@ {
        Some(ChipFamily::Esp32)
    } else if l == "esp32c2"@ {
        Some(ChipFamily::Esp32c2)
    } else if l == "esp32c3"@ {
        Some(ChipFamily::Esp32c3)
    } else if l == "esp32c5"@ {
        Some(ChipFamily::Esp32c5)
    } else if l == "esp32c6"@ {
        Some(ChipFamily::Esp32c6)
    } else if l == "esp32h2"@ {
        Some(ChipFamily::Esp32h2)
    } else if l == "esp32p4"@ {
        Some(ChipFamily::Esp32p4)
    } else if l == "esp32s2"@ {
        Some(ChipFamily::Esp32s2)
    } else if l == "esp32s3"@ {
        Some(ChipFamily::Esp32s3)
    } else {
        None
    }
}

/// Every supported family, in the order the user interface lists them.
pub open spec fn all_chips() -> Seq<ChipFamily> {
    seq![
        ChipFamily::Esp32,
        ChipFamily::Esp32c2,
        ChipFamily::Esp32c3,
        ChipFamily::Esp32c5,
        ChipFamily::Esp32c6,
        ChipFamily::Esp32h2,
        ChipFamily::Esp32p4,
        ChipFamily::Esp32s2,
        ChipFamily::Esp32s3,
    ]
}

impl ChipFamily {
    /// Every supported family.
    pub fn all() -> (v: Vec<ChipFamily>)
        ensures
            v@ == all_chips(),
    {
        let v = vec![
            ChipFamily::Esp32,
            ChipFamily::Esp32c2,
            ChipFamily::Esp32c3,
            ChipFamily::Esp32c5,
            ChipFamily::Esp32c6,
            ChipFamily::Esp32h2,
            ChipFamily::Esp32p4,
            ChipFamily::Esp32s2,
            ChipFamily::Esp32s3,
        ];
        assert(v@ =~= seq![
            ChipFamily::Esp32,
            ChipFamily::Esp32c2,
            ChipFamily::Esp32c3,
            ChipFamily::Esp32c5,
            ChipFamily::Esp32c6,
            ChipFamily::Esp32h2,
            ChipFamily::Esp32p4,
            ChipFamily::Esp32s2,
            ChipFamily::Esp32s3,
        ]);
        v
    }

    pub fn as_str(self) -> (s: &'static str)
        ensures
            s@ == chip_name(self),
    {
        match self {
            ChipFamily::Esp32 => "esp32",
            ChipFamily::Esp32c2 => "esp32c2",
            ChipFamily::Esp32c3 => "esp32c3",
            ChipFamily::Esp32c5 => "esp32c5",
            ChipFamily::Esp32c6 => "esp32c6",
            ChipFamily::Esp32h2 => "esp32h2",
            ChipFamily::Esp32p4 => "esp32p4",
            ChipFamily::Esp32s2 => "esp32s2",
            ChipFamily::Esp32s3 => "esp32s3",
        }
    }

    pub fn bootloader_address(self) -> (a: u32)
        ensures
            a == chip_bootloader_address(self),
    {
        match self {
            ChipFamily::Esp32c2 | ChipFamily::Esp32c3 | ChipFamily::Esp32c6 | ChipFamily::Esp32h2
            | ChipFamily::Esp32s3 => 0x0000,
            ChipFamily::Esp32 | ChipFamily::Esp32s2 => 0x1000,
            ChipFamily::Esp32c5 | ChipFamily::Esp32p4 => 0x2000,
        }
    }

    /// The family a name denotes, ignoring ASCII case.
    pub fn from_name(value: &str) -> (r: Result<ChipFamily, OperationError>)
        ensures
            match chip_named(value@) {
                Some(c) => r == Ok::<ChipFamily, OperationError>(c),
                None => r matches Err(e) && (fails_as(
                    e,
                    (ErrorCode::PackageUnsupported, "Неподдерживаемое семейство ESP32"@),
                ) && (e.detail matches Some(d) && d@ == value@)),
            },
    {
        if eq_ascii_lower(value, "esp32") {
            Ok(ChipFamily::Esp32)
        } else if eq_ascii_lower(value, "esp32c2") {
            Ok(ChipFamily::Esp32c2)
        } else if eq_ascii_lower(value, "esp32c3") {
            Ok(ChipFamily::Esp32c3)
        } else if eq_ascii_lower(value, "esp32c5") {
            Ok(ChipFamily::Esp32c5)
        } else if eq_ascii_lower(value, "esp32c6") {
            Ok(ChipFamily::Esp32c6)
        } else if eq_ascii_lower(value, "esp32h2") {
            Ok(ChipFamily::Esp32h2)
        } else if eq_ascii_lower(value, "esp32p4") {
            Ok(ChipFamily::Esp32p4)
        } else if eq_ascii_lower(value, "esp32s2") {
            Ok(ChipFamily::Esp32s2)
        } else if eq_ascii_lower(value, "esp32s3") {
            Ok(ChipFamily::Esp32s3)
        } else {
            Err(
                OperationError::new(
                    ErrorCode::PackageUnsupported,
                    "Неподдерживаемое семейство ESP32",
                ).with_detail(String::from_str(value)),
            )
        }
    }
}

/// A name that denotes a chip family is that family's name up to ASCII
/// case, and different families have different names.
pub proof fn lemma_chip_names(name: Seq<char>, a: ChipFamily, b: ChipFamily)
    ensures
        chip_named(name) matches Some(c) ==> chip_name(c) == ascii_lower(name),
        chip_named(chip_name(a)) == Some(a),
        a != b ==> chip_name(a) != chip_name(b),
{
    lemma_chip_name_roundtrip(a);
    lemma_chip_name_roundtrip(b);
}

/// Every chip family is found again by its own name.
pub proof fn lemma_chip_name_roundtrip(chip: ChipFamily)
    ensures
        chip_named(chip_name(chip)) == Some(chip),
{
    reveal_strlit("esp32");
    reveal_strlit("esp32c2");
    reveal_strlit("esp32c3");
    reveal_strlit("esp32c5");
    reveal_strlit("esp32c6");
    reveal_strlit("esp32h2");
    reveal_strlit("esp32p4");
    reveal_strlit("esp32s2");
    reveal_strlit("esp32s3");
    let n = chip_name(chip);
    let l = ascii_lower(n);
    if chip == ChipFamily::Esp32 {
        assert(l =~= "esp32"@);
        assert(chip_named(n) == Some(ChipFamily::Esp32));
    } else if chip == ChipFamily::Esp32c2 {
        assert(l =~= "esp32c2"@);
        assert(l != "esp32"@);
        assert(chip_named(n) == Some(ChipFamily::Esp32c2));
    } else if chip == ChipFamily::Esp32c3 {
        assert(l =~= "esp32c3"@);
        assert(l != "esp32"@);
        assert(l[5] != "esp32c2"@[5] || l[6] != "esp32c2"@[6]);
        assert(l != "esp32c2"@);
        assert(chip_named(n) == Some(ChipFamily::Esp32c3));
    } else if chip == ChipFamily::Esp32c5 {
        assert(l =~= "esp32c5"@);
        assert(l != "esp32"@);
        assert(l[5] != "esp32c2"@[5] || l[6] != "esp32c2"@[6]);
        assert(l != "esp32c2"@);
        assert(l[5] != "esp32c3"@[5] || l[6] != "esp32c3"@[6]);
        assert(l != "esp32c3"@);
        assert(chip_named(n) == Some(ChipFamily::Esp32c5));
    } else if chip == ChipFamily::Esp32c6 {
        assert(l =~= "esp32c6"@);
        assert(l != "esp32"@);
        assert(l[5] != "esp32c2"@[5] || l[6] != "esp32c2"@[6]);
        assert(l != "esp32c2"@);
        assert(l[5] != "esp32c3"@[5] || l[6] != "esp32c3"@[6]);
        assert(l != "esp32c3"@);
        assert(l[5] != "esp32c5"@[5] || l[6] != "esp32c5"@[6]);
        assert(l != "esp32c5"@);
        assert(chip_named(n) == Some(ChipFamily::Esp32c6));
    } else if chip == ChipFamily::Esp32h2 {
        assert(l =~= "esp32h2"@);
        assert(l != "esp32"@);
        assert(l[5] != "esp32c2"@[5] || l[6] != "esp32c2"@[6]);
        assert(l != "esp32c2"@);
        assert(l[5] != "esp32c3"@[5] || l[6] != "esp32c3"@[6]);
        assert(l != "esp32c3"@);
        assert(l[5] != "esp32c5"@[5] || l[6] != "esp32c5"@[6]);
        assert(l != "esp32c5"@);
        assert(l[5] != "esp32c6"@[5] || l[6] != "esp32c6"@[6]);
        assert(l != "esp32c6"@);
        assert(chip_named(n) == Some(ChipFamily::Esp32h2));
    } else if chip == ChipFamily::Esp32p4 {
        assert(l =~= "esp32p4"@);
        assert(l != "esp32"@);
        assert(l[5] != "esp32c2"@[5] || l[6] != "esp32c2"@[6]);
        assert(l != "esp32c2"@);
        assert(l[5] != "esp32c3"@[5] || l[6] != "esp32c3"@[6]);
        assert(l != "esp32c3"@);
        assert(l[5] != "esp32c5"@[5] || l[6] != "esp32c5"@[6]);
        assert(l != "esp32c5"@);
        assert(l[5] != "esp32c6"@[5] || l[6] != "esp32c6"@[6]);
        assert(l != "esp32c6"@);
        assert(l[5] != "esp32h2"@[5] || l[6] != "esp32h2"@[6]);
        assert(l != "esp32h2"@);
        assert(chip_named(n) == Some(ChipFamily::Esp32p4));
    } else if chip == ChipFamily::Esp32s2 {
        assert(l =~= "esp32s2"@);
        assert(l != "esp32"@);
        assert(l[5] != "esp32c2"@[5] || l[6] != "esp32c2"@[6]);
        assert(l != "esp32c2"@);
        assert(l[5] != "esp32c3"@[5] || l[6] != "esp32c3"@[6]);
        assert(l != "esp32c3"@);
        assert(l[5] != "esp32c5"@[5] || l[6] != "esp32c5"@[6]);
        assert(l != "esp32c5"@);
        assert(l[5] != "esp32c6"@[5] || l[6] != "esp32c6"@[6]);
        assert(l != "esp32c6"@);
        assert(l[5] != "esp32h2"@[5] || l[6] != "esp32h2"@[6]);
        assert(l != "esp32h2"@);
        assert(l[5] != "esp32p4"@[5] || l[6] != "esp32p4"@[6]);
        assert(l != "esp32p4"@);
        assert(chip_named(n) == Some(ChipFamily::Esp32s2));
    } else if chip == ChipFamily::Esp32s3 {
        assert(l =~= "esp32s3"@);
        assert(l != "esp32"@);
        assert(l[5] != "esp32c2"@[5] || l[6] != "esp32c2"@[6]);
        assert(l != "esp32c2"@);
        assert(l[5] != "esp32c3"@[5] || l[6] != "esp32c3"@[6]);
        assert(l != "esp32c3"@);
        assert(l[5] != "esp32c5"@[5] || l[6] != "esp32c5"@[6]);
        assert(l != "esp32c5"@);
        assert(l[5] != "esp32c6"@[5] || l[6] != "esp32c6"@[6]);
        assert(l != "esp32c6"@);
        assert(l[5] != "esp32h2"@[5] || l[6] != "esp32h2"@[6]);
        assert(l != "esp32h2"@);
        assert(l[5] != "esp32p4"@[5] || l[6] != "esp32p4"@[6]);
        assert(l != "esp32p4"@);
        assert(l[5] != "esp32s2"@[5] || l[6] != "esp32s2"@[6]);
        assert(l != "esp32s2"@);
        assert(chip_named(n) == Some(ChipFamily::Esp32s3));
    }
}

// ---------------------------------------------------------------------------
// Hexadecimal addresses
// ---------------------------------------------------------------------------

/// A flash address, written as `0x` followed by hexadecimal digits.
#[derive(Debug, Clone, Copy, PartialEq, Eq, PartialOrd, Ord, Structural)]
pub struct HexAddress(pub u32);

/// Why a text is not a hexadecimal address.
#[derive(Debug, Clone, Copy, PartialEq, Eq, Structural)]
pub enum HexAddressError {
    MissingPrefix,
    InvalidDigits,
}

impl HexAddressError {
    pub fn message(self) -> (s: &'static str)
        ensures
            s@ == match self {
                HexAddressError::MissingPrefix => "address must start with 0x"@,
                HexAddressError::InvalidDigits => "invalid hexadecimal address"@,
            },
    {
        match self {
            HexAddressError::MissingPrefix => "address must start with 0x",
            HexAddressError::InvalidDigits => "invalid hexadecimal address",
        }
    }
}

/// The text of an address: `0x` and upper-case digits without leading zeros.
pub open spec fn hex_address_text(value: u32) -> Seq<char> {
    "0x"@ + hex_upper(value as nat)
}

/// An ASCII hexadecimal digit, either case.
pub open spec fn is_hex_digit(c: char) -> bool {
    ('0' <= c <= '9') || ('a' <= c <= 'f') || ('A' <= c <= 'F')
}

pub open spec fn hex_digit_value(c: char) -> nat {
    if '0' <= c <= '9' {
        (c as u32 - '0' as u32) as nat
    } else if 'a' <= c <= 'f' {
        (c as u32 - 'a' as u32 + 10) as nat
    } else {
        (c as u32 - 'A' as u32 + 10) as nat
    }
}

/// The number that hexadecimal digits denote.
pub open spec fn hex_value(s: Seq<char>) -> nat
    decreases s.len(),
{
    if s.len() == 0 {
        0
    } else {
        hex_value(s.drop_last()) * 16 + hex_digit_value(s.last())
    }
}

/// How a text reads as an address: `0x` then 1 to 8 hexadecimal digits.
pub open spec fn spec_parse_hex_address(s: Seq<char>) -> Result<u32, HexAddressError> {
    if s.len() < 2 || s[0] != '0' || s[1] != 'x' {
        Err(HexAddressError::MissingPrefix)
    } else {
        let digits = s.skip(2);
        if digits.len() == 0 || digits.len() > 8 || !(forall|i: int|
            0 <= i < digits.len() ==> is_hex_digit(#[trigger] digits[i])) {
            Err(HexAddressError::InvalidDigits)
        } else {
            Ok(hex_value(digits) as u32)
        }
    }
}

pub open spec fn pow16(k: nat) -> nat
    decreases k,
{
    if k == 0 {
        1
    } else {
        16 * pow16((k - 1) as nat)
    }
}

proof fn lemma_hex_value_bound(s: Seq<char>)
    requires
        forall|i: int| 0 <= i < s.len() ==> is_hex_digit(#[trigger] s[i]),
    ensures
        hex_value(s) < pow16(s.len()),
    decreases s.len(),
{
    if s.len() > 0 {
        let t = s.drop_last();
        assert forall|i: int| 0 <= i < t.len() implies is_hex_digit(#[trigger] t[i]) by {
            assert(t[i] == s[i]);
        }
        lemma_hex_value_bound(t);
        assert(is_hex_digit(s[s.len() - 1]));
        assert(hex_digit_value(s.last()) < 16);
        assert(hex_value(t) * 16 + hex_digit_value(s.last()) < pow16(t.len()) * 16) by (nonlinear_arith)
            requires
                hex_value(t) < pow16(t.len()),
                hex_digit_value(s.last()) < 16,
        ;
    }
}

impl HexAddress {
    /// `0x` followed by the upper-case hexadecimal digits of the address.
    pub fn to_hex_string(&self) -> (s: String)
        ensures
            s@ == hex_address_text(self.0),
    {
        proof {
            reveal_strlit("0x");
        }
        let mut s = String::from_str("0x");
        let digits = u32_to_hex_upper(self.0);
        s.append(digits.as_str());
        s
    }

    /// Reads an address written as `0x` and 1 to 8 hexadecimal digits of
    /// either case.
    pub fn parse(value: &str) -> (r: Result<HexAddress, HexAddressError>)
        ensures
            match spec_parse_hex_address(value@) {
                Ok(v) => r == Ok::<HexAddress, HexAddressError>(HexAddress(v)),
                Err(e) => r == Err::<HexAddress, HexAddressError>(e),
            },
    {
        let chars = crate::text::chars_of(value);
        if chars.len() < 2 || chars[0] != '0' || chars[1] != 'x' {
            return Err(HexAddressError::MissingPrefix);
        }
        let ghost digits = value@.skip(2);
        let n = chars.len() - 2;
        assert(digits.len() == n);
        if n == 0 || n > 8 {
            return Err(HexAddressError::InvalidDigits);
        }
        let mut acc: u32 = 0;
        let mut i: usize = 0;
        while i < n
            invariant
                chars@ == value@,
                digits == value@.skip(2),
                n == digits.len(),
                n + 2 == chars@.len(),
                value@.len() >= 2 && value@[0] == '0' && value@[1] == 'x',
                1 <= n <= 8,
                i <= n,
                forall|k: int| 0 <= k < i ==> is_hex_digit(#[trigger] digits[k]),
                acc as nat == hex_value(digits.take(i as int)),
            decreases n - i,
        {
            let c = chars[i + 2];
            assert(c == digits[i as int]);
            let d: u32 = if '0' <= c && c <= '9' {
                (c as u32) - ('0' as u32)
            } else if 'a' <= c && c <= 'f' {
                (c as u32) - ('a' as u32) + 10
            } else if 'A' <= c && c <= 'F' {
                (c as u32) - ('A' as u32) + 10
            } else {
                assert(!is_hex_digit(digits[i as int]));
                assert(!(forall|k: int| 0 <= k < digits.len() ==> is_hex_digit(#[trigger] digits[k])));
                assert(value@.len() >= 2 && value@[0] == '0' && value@[1] == 'x');
                return Err(HexAddressError::InvalidDigits);
            };
            proof {
                assert(digits.take(i + 1).drop_last() =~= digits.take(i as int));
                let t = digits.take(i as int);
                assert forall|k: int| 0 <= k < t.len() implies is_hex_digit(#[trigger] t[k]) by {
                    assert(t[k] == digits[k]);
                }
                lemma_hex_value_bound(t);
                lemma_pow16_le_8(i as nat);
                assert((acc as nat) * 16 + d < 0x1_0000_0000) by (nonlinear_arith)
                    requires
                        (acc as nat) < pow16(i as nat),
                        pow16(i as nat) <= 0x1000_0000,
                        d < 16,
                ;
            }
            acc = acc * 16 + d;
            i = i + 1;
        }
        assert(digits.take(n as int) =~= digits);
        Ok(HexAddress(acc))
    }
}

proof fn lemma_pow16_le_8(k: nat)
    requires
        k < 8,
    ensures
        pow16(k) <= 0x1000_0000,
{
    assert(pow16(0) == 1);
    assert(pow16(1) == 16);
    assert(pow16(2) == 0x100);
    assert(pow16(3) == 0x1000);
    assert(pow16(4) == 0x1_0000);
    assert(pow16(5) == 0x10_0000);
    assert(pow16(6) == 0x100_0000);
    assert(pow16(7) == 0x1000_0000);
}


proof fn lemma_hex_char_digit(d: nat)
    requires
        d < 16,
    ensures
        is_hex_digit(hex_char(d as u8, true)),
        hex_digit_value(hex_char(d as u8, true)) == d,
{
}

proof fn lemma_hex_upper(n: nat, k: nat)
    requires
        1 <= k,
        n < pow16(k),
    ensures
        forall|i: int| 0 <= i < hex_upper(n).len() ==> is_hex_digit(#[trigger] hex_upper(n)[i]),
        hex_value(hex_upper(n)) == n,
        1 <= hex_upper(n).len() <= k,
    decreases n,
{
    if n < 16 {
        lemma_hex_char_digit(n);
        assert(hex_upper(n) =~= seq![hex_char(n as u8, true)]);
        assert(hex_upper(n).drop_last() =~= Seq::<char>::empty());
        assert(hex_value(Seq::<char>::empty()) == 0);
        assert(hex_value(hex_upper(n)) == hex_value(Seq::<char>::empty()) * 16 + hex_digit_value(hex_char(n as u8, true)));
    } else {
        let q = n / 16;
        let r = n % 16;
        assert(k >= 2) by {
            if k == 1 {
                assert(pow16(1) == 16 * pow16(0));
            }
        }
        assert(pow16(k) == 16 * pow16((k - 1) as nat));
        assert(q < pow16((k - 1) as nat));
        lemma_hex_upper(q, (k - 1) as nat);
        lemma_hex_char_digit(r);
        let s = hex_upper(n);
        assert(s == hex_upper(q) + seq![hex_char(r as u8, true)]);
        assert(s.drop_last() =~= hex_upper(q));
        assert(hex_value(s) == hex_value(hex_upper(q)) * 16 + hex_digit_value(hex_char(r as u8, true)));
        assert forall|i: int| 0 <= i < s.len() implies is_hex_digit(#[trigger] s[i]) by {
            if i < hex_upper(q).len() {
                assert(s[i] == hex_upper(q)[i]);
            }
        }
    }
}

/// Writing an address and reading it back gives the same address.
pub proof fn lemma_hex_address_roundtrip(value: u32)
    ensures
        spec_parse_hex_address(hex_address_text(value)) == Ok::<u32, HexAddressError>(value),
{
    reveal_strlit("0x");
    assert(pow16(8) == 0x1_0000_0000) by {
        assert(pow16(0) == 1);
        assert(pow16(1) == 16);
        assert(pow16(2) == 0x100);
        assert(pow16(3) == 0x1000);
        assert(pow16(4) == 0x1_0000);
        assert(pow16(5) == 0x10_0000);
        assert(pow16(6) == 0x100_0000);
        assert(pow16(7) == 0x1000_0000);
    }
    lemma_hex_upper(value as nat, 8);
    let s = hex_address_text(value);
    assert(s.skip(2) =~= hex_upper(value as nat));
}


// ---------------------------------------------------------------------------
// Firmware manifests
// ---------------------------------------------------------------------------

/// What a segment of a package holds.
#[derive(Debug, Clone, Copy, PartialEq, Eq, Structural)]
pub enum SegmentRole {
    Bootloader,
    PartitionTable,
    Application,
    OtaData,
    Data,
}

/// One BIN file of a package: its role, file name, optional flash offset,
/// size and SHA-256 (lower-case hexadecimal).
#[derive(Debug, Clone, PartialEq, Eq)]
pub struct FirmwareSegment {
    pub role: SegmentRole,
    pub file: String,
    pub offset: Option<HexAddress>,
    pub size: u64,
    pub sha256: String,
}

/// How the UART is watched after flashing.
#[derive(Debug, Clone, PartialEq, Eq)]
pub struct MonitorPolicy {
    pub baud: u32,
    pub success_marker: String,
    pub success_timeout_ms: u64,
}

/// Whether an OTA update is written so that the bootloader may roll it back.
#[derive(Debug, Clone, Copy, PartialEq, Eq, Structural)]
pub struct OtaPolicy {
    pub rollback_enabled: bool,
}

/// The description of a firmware package (`firmware.json`).
#[derive(Debug, Clone, PartialEq, Eq)]
pub struct FirmwareManifest {
    pub schema_version: u32,
    pub package_id: String,
    pub display_name: String,
    pub firmware_version: String,
    pub kind: PackageKind,
    pub target_chips: Vec<ChipFamily>,
    pub partition_table_offset: HexAddress,
    pub monitor: MonitorPolicy,
    pub ota: OtaPolicy,
    pub segments: Vec<FirmwareSegment>,
}

/// A segment as plain values.
pub struct SegmentView {
    pub role: SegmentRole,
    pub file: Seq<char>,
    pub offset: Option<u32>,
    pub size: u64,
    pub sha256: Seq<char>,
}

impl View for FirmwareSegment {
    type V = SegmentView;

    open spec fn view(&self) -> SegmentView {
        SegmentView {
            role: self.role,
            file: self.file@,
            offset: match self.offset {
                Some(a) => Some(a.0),
                None => None,
            },
            size: self.size,
            sha256: self.sha256@,
        }
    }
}

pub open spec fn segments_view(s: Seq<FirmwareSegment>) -> Seq<SegmentView> {
    s.map_values(|x: FirmwareSegment| x@)
}

pub fn invalid(message: &str) -> (e: OperationError)
    ensures
        fails_as(e, (ErrorCode::PackageInvalid, message@)),
        e.detail is None,
{
    OperationError::new(ErrorCode::PackageInvalid, message)
}

/// A byte allowed in a package id: ASCII letter or digit, `.`, `_` or `-`.
pub open spec fn package_id_byte(b: u8) -> bool {
    (0x30 <= b <= 0x39) || (0x41 <= b <= 0x5A) || (0x61 <= b <= 0x7A) || b == 0x2E || b == 0x5F
        || b == 0x2D
}

/// A package id: 1 to 64 bytes, each allowed.
pub open spec fn spec_is_package_id(s: Seq<char>) -> bool {
    let b = vstd::utf8::encode_utf8(s);
    &&& 0 < b.len() <= 64
    &&& forall|i: int| 0 <= i < b.len() ==> package_id_byte(#[trigger] b[i])
}

pub fn is_package_id(value: &str) -> (r: bool)
    ensures
        r == spec_is_package_id(value@),
{
    let bytes = value.as_bytes();
    if bytes.len() == 0 || bytes.len() > 64 {
        return false;
    }
    let mut i: usize = 0;
    while i < bytes.len()
        invariant
            bytes@ == vstd::utf8::encode_utf8(value@),
            i <= bytes@.len(),
            forall|k: int| 0 <= k < i ==> package_id_byte(#[trigger] bytes@[k]),
        decreases bytes@.len() - i,
    {
        let b = bytes[i];
        if !((0x30 <= b && b <= 0x39) || (0x41 <= b && b <= 0x5A) || (0x61 <= b && b <= 0x7A) || b
            == 0x2E || b == 0x5F || b == 0x2D) {
            return false;
        }
        i = i + 1;
    }
    true
}

/// A display text: not blank, at most `max_len` characters, no control
/// characters.
pub open spec fn spec_validate_text(field: Seq<char>, value: Seq<char>, max_len: nat) -> Result<(), Failure> {
    if (forall|i: int| 0 <= i < value.len() ==> is_white_space(#[trigger] value[i])) || value.len()
        > max_len {
        Err((ErrorCode::PackageInvalid, field + " имеет недопустимую длину"@))
    } else if exists|i: int| 0 <= i < value.len() && is_control(#[trigger] value[i]) {
        Err((ErrorCode::PackageInvalid, field + " содержит управляющие символы"@))
    } else {
        Ok(())
    }
}

pub fn validate_text(field: &str, value: &str, max_len: usize) -> (r: Result<(), OperationError>)
    ensures
        outcome_is(r, spec_validate_text(field@, value@, max_len as nat)),
        r matches Err(e) ==> e.detail is None,
{
    let chars = crate::text::chars_of(value);
    let mut blank = true;
    let mut control = false;
    let mut i: usize = 0;
    while i < chars.len()
        invariant
            chars@ == value@,
            i <= chars@.len(),
            blank == (forall|k: int| 0 <= k < i ==> is_white_space(#[trigger] value@[k])),
            control == (exists|k: int| 0 <= k < i && is_control(#[trigger] value@[k])),
        decreases chars@.len() - i,
    {
        if !char_is_white_space(chars[i]) {
            blank = false;
        }
        if char_is_control(chars[i]) {
            control = true;
        }
        i = i + 1;
    }
    if blank || chars.len() > max_len {
        let mut message = String::from_str(field);
        message.append(" имеет недопустимую длину");
        return Err(invalid(message.as_str()));
    }
    if control {
        let mut message = String::from_str(field);
        message.append(" содержит управляющие символы");
        return Err(invalid(message.as_str()));
    }
    Ok(())
}

/// The monitor baud rates a manifest may ask for.
pub open spec fn manifest_baud(baud: u32) -> bool {
    baud == 9_600 || baud == 19_200 || baud == 38_400 || baud == 57_600 || baud == 115_200 || baud
        == 230_400 || baud == 460_800 || baud == 921_600
}

/// A monitor policy: a listed baud rate, a marker of at most 256 bytes and a
/// timeout from 1 to 120 seconds.
pub open spec fn spec_validate_monitor(baud: u32, marker: Seq<char>, timeout_ms: u64) -> Result<(), Failure> {
    if !manifest_baud(baud) {
        Err((ErrorCode::PackageInvalid, "monitor.baud не поддерживается"@))
    } else if utf8_len(marker) > MAX_MARKER_BYTES {
        Err((ErrorCode::PackageInvalid, "monitor.success_marker должен занимать не более 256 байт"@))
    } else if !(1_000 <= timeout_ms <= 120_000) {
        Err((ErrorCode::PackageInvalid, "monitor.success_timeout_ms должен быть от 1000 до 120000"@))
    } else {
        Ok(())
    }
}

impl MonitorPolicy {
    pub fn validate(&self) -> (r: Result<(), OperationError>)
        ensures
            outcome_is(
                r,
                spec_validate_monitor(self.baud, self.success_marker@, self.success_timeout_ms),
            ),
            r matches Err(e) ==> e.detail is None,
    {
        let b = self.baud;
        if !(b == 9_600 || b == 19_200 || b == 38_400 || b == 57_600 || b == 115_200 || b == 230_400
            || b == 460_800 || b == 921_600) {
            return Err(invalid("monitor.baud не поддерживается"));
        }
        if self.success_marker.as_str().as_bytes().len() > MAX_MARKER_BYTES {
            return Err(invalid("monitor.success_marker должен занимать не более 256 байт"));
        }
        if !(1_000 <= self.success_timeout_ms && self.success_timeout_ms <= 120_000) {
            return Err(invalid("monitor.success_timeout_ms должен быть от 1000 до 120000"));
        }
        Ok(())
    }
}

/// A lower-case hexadecimal digit byte.
pub open spec fn lower_hex_byte(b: u8) -> bool {
    (0x30 <= b <= 0x39) || (0x61 <= b <= 0x66)
}

/// A segment: a file name of 1 to 240 bytes, a non-zero size and a SHA-256
/// of 64 lower-case hexadecimal digits.
pub open spec fn spec_validate_segment(s: SegmentView) -> Result<(), Failure> {
    let sha = vstd::utf8::encode_utf8(s.sha256);
    if utf8_len(s.file) == 0 || utf8_len(s.file) > 240 {
        Err((ErrorCode::PackageInvalid, "segment.file имеет недопустимую длину"@))
    } else if s.size == 0 {
        Err((ErrorCode::PackageInvalid, "segment.size должен быть больше нуля"@))
    } else if sha.len() != 64 || !(forall|i: int| 0 <= i < sha.len() ==> lower_hex_byte(#[trigger] sha[i])) {
        Err((ErrorCode::PackageInvalid, "segment.sha256 должен быть lowercase SHA-256"@))
    } else {
        Ok(())
    }
}

impl FirmwareSegment {
    pub fn validate(&self) -> (r: Result<(), OperationError>)
        ensures
            outcome_is(r, spec_validate_segment(self@)),
            r matches Err(e) ==> e.detail is None,
    {
        let file_len = self.file.as_str().as_bytes().len();
        if file_len == 0 || file_len > 240 {
            return Err(invalid("segment.file имеет недопустимую длину"));
        }
        if self.size == 0 {
            return Err(invalid("segment.size должен быть больше нуля"));
        }
        let sha = self.sha256.as_str().as_bytes();
        if sha.len() != 64 {
            return Err(invalid("segment.sha256 должен быть lowercase SHA-256"));
        }
        let mut i: usize = 0;
        while i < sha.len()
            invariant
                sha@ == vstd::utf8::encode_utf8(self.sha256@),
                0 < utf8_len(self.file@) <= 240,
                self.size != 0,
                sha@.len() == 64,
                i <= sha@.len(),
                forall|k: int| 0 <= k < i ==> lower_hex_byte(#[trigger] sha@[k]),
            decreases sha@.len() - i,
        {
            let b = sha[i];
            if !((0x30 <= b && b <= 0x39) || (0x61 <= b && b <= 0x66)) {
                return Err(invalid("segment.sha256 должен быть lowercase SHA-256"));
            }
            i = i + 1;
        }
        Ok(())
    }
}


/// The first segment whose size or end leaves the 32-bit address space.
pub open spec fn segment_range_failure(segs: Seq<SegmentView>) -> Option<Failure>
    decreases segs.len(),
{
    if segs.len() == 0 {
        None
    } else {
        let s = segs[0];
        if s.size > u32::MAX {
            Some(
                (
                    ErrorCode::PackageInvalid,
                    "размер сегмента не помещается в адресное пространство"@,
                ),
            )
        } else if s.offset->0 + s.size > u32::MAX {
            Some(
                (
                    ErrorCode::PackageInvalid,
                    "диапазон сегмента переполняет адресное пространство"@,
                ),
            )
        } else {
            segment_range_failure(segs.drop_first())
        }
    }
}

pub open spec fn segment_starts(segs: Seq<SegmentView>) -> Seq<u32> {
    segs.map_values(|s: SegmentView| s.offset->0)
}

pub open spec fn segment_ends(segs: Seq<SegmentView>) -> Seq<u32> {
    segs.map_values(|s: SegmentView| (s.offset->0 + s.size) as u32)
}

/// Factory segments must lie within the 32-bit address space and must not
/// overlap.
pub open spec fn spec_validate_factory_ranges(segs: Seq<SegmentView>) -> Result<(), Failure> {
    match segment_range_failure(segs) {
        Some(f) => Err(f),
        None => if has_overlap(segment_starts(segs), segment_ends(segs)) {
            Err((ErrorCode::PackageInvalid, "factory-сегменты пересекаются"@))
        } else {
            Ok(())
        },
    }
}

pub fn validate_factory_ranges(segments: &[FirmwareSegment]) -> (r: Result<(), OperationError>)
    requires
        forall|i: int| 0 <= i < segments@.len() ==> (#[trigger] segments@[i]).offset is Some,
    ensures
        outcome_is(r, spec_validate_factory_ranges(segments_view(segments@))),
        r matches Err(e) ==> {
            let segs = segments_view(segments@);
            if segment_range_failure(segs) is Some {
                e.detail is None
            } else {
                exists|i: int, j: int|
                    #![trigger segs[i], segs[j]]
                    overlapping_pair(segment_starts(segs), segment_ends(segs), i, j) && (e.detail
                        matches Some(d) && d@ == crate::ota::pair_detail(segs[i].file, segs[j].file))
            }
        },
{
    let ghost segs = segments_view(segments@);
    let mut starts: Vec<u32> = Vec::new();
    let mut ends: Vec<u32> = Vec::new();
    let mut i: usize = 0;
    assert(segs.skip(0) =~= segs);
    while i < segments.len()
        invariant
            segs == segments_view(segments@),
            forall|k: int| 0 <= k < segments@.len() ==> (#[trigger] segments@[k]).offset is Some,
            i <= segs.len(),
            segment_range_failure(segs) == segment_range_failure(segs.skip(i as int)),
            starts@ == segment_starts(segs.take(i as int)),
            ends@ == segment_ends(segs.take(i as int)),
        decreases segs.len() - i,
    {
        let start = match segments[i].offset {
            Some(a) => a.0,
            None => 0,
        };
        let size64 = segments[i].size;
        assert(segs.skip(i as int)[0] == segs[i as int]);
        if size64 > 0xFFFF_FFFFu64 {
            return Err(invalid("размер сегмента не помещается в адресное пространство"));
        }
        let size = size64 as u32;
        if size > 0xFFFF_FFFFu32 - start {
            return Err(invalid("диапазон сегмента переполняет адресное пространство"));
        }
        starts.push(start);
        ends.push(start + size);
        proof {
            assert(segs.skip(i as int).drop_first() =~= segs.skip(i + 1));
            assert(starts@ =~= segment_starts(segs.take(i + 1)));
            assert(ends@ =~= segment_ends(segs.take(i + 1)));
        }
        i = i + 1;
    }
    assert(segs.take(i as int) =~= segs);
    assert(segs.skip(i as int).len() == 0);
    match find_overlap(starts.as_slice(), ends.as_slice()) {
        Some((a, b)) => {
            let detail = crate::ota::join_pair(&segments[a].file, &segments[b].file);
            Err(invalid("factory-сегменты пересекаются").with_detail(detail))
        },
        None => Ok(()),
    }
}

/// Some chip is listed twice.
pub open spec fn has_duplicate_chip(s: Seq<ChipFamily>) -> bool {
    exists|i: int, j: int| 0 <= i < j < s.len() && #[trigger] s[i] == #[trigger] s[j]
}

pub fn has_duplicate(chips: &[ChipFamily]) -> (r: bool)
    ensures
        r == has_duplicate_chip(chips@),
{
    let mut j: usize = 0;
    while j < chips.len()
        invariant
            j <= chips@.len(),
            forall|a: int, b: int| 0 <= a < b < j ==> chips@[a] != chips@[b],
        decreases chips@.len() - j,
    {
        let mut i: usize = 0;
        while i < j
            invariant
                j < chips@.len(),
                i <= j,
                forall|a: int, b: int| 0 <= a < b < j ==> chips@[a] != chips@[b],
                forall|a: int| 0 <= a < i ==> chips@[a] != chips@[j as int],
            decreases j - i,
        {
            if chips[i] == chips[j] {
                return true;
            }
            i = i + 1;
        }
        j = j + 1;
    }
    false
}

/// The first failing segment, checked in order.
pub open spec fn spec_validate_segments(segs: Seq<SegmentView>) -> Result<(), Failure>
    decreases segs.len(),
{
    if segs.len() == 0 {
        Ok(())
    } else {
        match spec_validate_segment(segs[0]) {
            Err(f) => Err(f),
            Ok(_) => spec_validate_segments(segs.drop_first()),
        }
    }
}

/// The offset of the first partition-table segment, if there is one.
pub open spec fn first_partition_table(segs: Seq<SegmentView>) -> Option<Option<u32>>
    decreases segs.len(),
{
    if segs.len() == 0 {
        None
    } else if segs[0].role == SegmentRole::PartitionTable {
        Some(segs[0].offset)
    } else {
        first_partition_table(segs.drop_first())
    }
}

/// The checks that depend on the package kind: factory segments carry
/// offsets, lie apart, and put the partition table where the manifest says;
/// an update is one application without an offset.
pub open spec fn spec_validate_layout(kind: PackageKind, segs: Seq<SegmentView>, partition_table_offset: u32) -> Result<(), Failure> {
    match kind {
        PackageKind::Factory => if exists|i: int| 0 <= i < segs.len() && (#[trigger] segs[i]).offset is None {
            Err((ErrorCode::PackageInvalid, "factory-сегмент должен содержать абсолютный offset"@))
        } else {
            match spec_validate_factory_ranges(segs) {
                Err(f) => Err(f),
                Ok(_) => match first_partition_table(segs) {
                    Some(offset) => if offset != Some(partition_table_offset) {
                        Err(
                            (
                                ErrorCode::PackageInvalid,
                                "offset partition table не совпадает с partition_table_offset"@,
                            ),
                        )
                    } else {
                        Ok(())
                    },
                    None => Ok(()),
                },
            }
        },
        PackageKind::Update => if segs.len() != 1 || segs[0].role != SegmentRole::Application
            || segs[0].offset is Some {
            Err((ErrorCode::PackageInvalid, "update-пакет должен содержать один application без offset"@))
        } else {
            Ok(())
        },
    }
}

/// A manifest as plain values.
pub struct ManifestView {
    pub schema_version: u32,
    pub package_id: Seq<char>,
    pub display_name: Seq<char>,
    pub firmware_version: Seq<char>,
    pub kind: PackageKind,
    pub target_chips: Seq<ChipFamily>,
    pub partition_table_offset: u32,
    pub monitor_baud: u32,
    pub success_marker: Seq<char>,
    pub success_timeout_ms: u64,
    pub rollback_enabled: bool,
    pub segments: Seq<SegmentView>,
}

impl View for FirmwareManifest {
    type V = ManifestView;

    open spec fn view(&self) -> ManifestView {
        ManifestView {
            schema_version: self.schema_version,
            package_id: self.package_id@,
            display_name: self.display_name@,
            firmware_version: self.firmware_version@,
            kind: self.kind,
            target_chips: self.target_chips@,
            partition_table_offset: self.partition_table_offset.0,
            monitor_baud: self.monitor.baud,
            success_marker: self.monitor.success_marker@,
            success_timeout_ms: self.monitor.success_timeout_ms,
            rollback_enabled: self.ota.rollback_enabled,
            segments: segments_view(self.segments@),
        }
    }
}

/// What a well-formed manifest is: schema 1, a valid package id, display
/// texts, a non-empty list of distinct chips, a valid monitor policy, at
/// least one segment, the layout checks of its kind, and valid segments.
pub open spec fn spec_validate_structure(m: ManifestView) -> Result<(), Failure> {
    let segs = m.segments;
    if m.schema_version != SCHEMA_VERSION {
        Err((ErrorCode::PackageUnsupported, "Версия firmware.json не поддерживается"@))
    } else if !spec_is_package_id(m.package_id) {
        Err((ErrorCode::PackageInvalid, "package_id имеет недопустимый формат"@))
    } else {
        match spec_validate_text("display_name"@, m.display_name, MAX_TEXT_LEN as nat) {
            Err(f) => Err(f),
            Ok(_) => match spec_validate_text("firmware_version"@, m.firmware_version, MAX_VERSION_LEN as nat) {
                Err(f) => Err(f),
                Ok(_) => if m.target_chips.len() == 0 {
                    Err((ErrorCode::PackageInvalid, "target_chips не должен быть пустым"@))
                } else if has_duplicate_chip(m.target_chips) {
                    Err((ErrorCode::PackageInvalid, "target_chips содержит повторяющиеся значения"@))
                } else {
                    match spec_validate_monitor(m.monitor_baud, m.success_marker, m.success_timeout_ms) {
                        Err(f) => Err(f),
                        Ok(_) => if segs.len() == 0 {
                            Err((ErrorCode::PackageInvalid, "segments не должен быть пустым"@))
                        } else {
                            match spec_validate_layout(m.kind, segs, m.partition_table_offset) {
                                Err(f) => Err(f),
                                Ok(_) => spec_validate_segments(segs),
                            }
                        },
                    }
                },
            },
        }
    }
}

#[verifier::loop_isolation(false)]
fn validate_layout(m: &FirmwareManifest) -> (r: Result<(), OperationError>)
    requires
        m.segments@.len() > 0,
    ensures
        outcome_is(r, spec_validate_layout(m.kind, segments_view(m.segments@), m.partition_table_offset.0)),
{
    let ghost segs = segments_view(m.segments@);
    let segments = m.segments.as_slice();
    match m.kind {
        PackageKind::Factory => {
            let mut i: usize = 0;
            while i < segments.len()
                invariant
                    segs == segments_view(segments@),
                    i <= segs.len(),
                    forall|k: int| 0 <= k < i ==> (#[trigger] segs[k]).offset is Some,
                decreases segs.len() - i,
            {
                if segments[i].offset.is_none() {
                    assert(segs[i as int].offset is None);
                    return Err(invalid("factory-сегмент должен содержать абсолютный offset"));
                }
                i = i + 1;
            }
            assert forall|k: int| 0 <= k < segments@.len() implies (#[trigger] segments@[k]).offset is Some by {
                assert(segs[k].offset is Some);
            }
            validate_factory_ranges(segments)?;
            let mut j: usize = 0;
            assert(segs.skip(0) =~= segs);
            while j < segments.len()
                invariant
                    segs == segments_view(segments@),
                    j <= segs.len(),
                    first_partition_table(segs) == first_partition_table(segs.skip(j as int)),
                decreases segs.len() - j,
            {
                assert(segs.skip(j as int)[0] == segs[j as int]);
                if segments[j].role == SegmentRole::PartitionTable {
                    let matches = match segments[j].offset {
                        Some(a) => a.0 == m.partition_table_offset.0,
                        None => false,
                    };
                    if !matches {
                        return Err(invalid("offset partition table не совпадает с partition_table_offset"));
                    }
                    return Ok(());
                }
                assert(segs.skip(j as int).drop_first() =~= segs.skip(j + 1));
                j = j + 1;
            }
            assert(segs.skip(j as int).len() == 0);
            Ok(())
        },
        PackageKind::Update => {
            if segments.len() != 1 || segments[0].role != SegmentRole::Application
                || segments[0].offset.is_some() {
                return Err(invalid("update-пакет должен содержать один application без offset"));
            }
            Ok(())
        },
    }
}

impl FirmwareManifest {
    #[verifier::loop_isolation(false)]
    pub fn validate_structure(&self) -> (r: Result<(), OperationError>)
        ensures
            outcome_is(r, spec_validate_structure(self@)),
            r matches Err(e) ==> (self.schema_version != SCHEMA_VERSION ==> (e.detail matches Some(d)
                && d@ == decimal(self.schema_version as nat))),
    {
        let ghost segs = segments_view(self.segments@);
        if self.schema_version != SCHEMA_VERSION {
            return Err(
                OperationError::new(
                    ErrorCode::PackageUnsupported,
                    "Версия firmware.json не поддерживается",
                ).with_detail(u64_to_decimal(self.schema_version as u64)),
            );
        }
        if !is_package_id(self.package_id.as_str()) {
            return Err(invalid("package_id имеет недопустимый формат"));
        }
        validate_text("display_name", self.display_name.as_str(), MAX_TEXT_LEN)?;
        validate_text("firmware_version", self.firmware_version.as_str(), MAX_VERSION_LEN)?;
        if self.target_chips.len() == 0 {
            return Err(invalid("target_chips не должен быть пустым"));
        }
        if has_duplicate(self.target_chips.as_slice()) {
            return Err(invalid("target_chips содержит повторяющиеся значения"));
        }
        self.monitor.validate()?;
        if self.segments.len() == 0 {
            return Err(invalid("segments не должен быть пустым"));
        }
        validate_layout(self)?;
        let mut i: usize = 0;
        assert(segs.skip(0) =~= segs);
        while i < self.segments.len()
            invariant
                segs == segments_view(self.segments@),
                i <= segs.len(),
                spec_validate_segments(segs) == spec_validate_segments(segs.skip(i as int)),
            decreases segs.len() - i,
        {
            assert(segs.skip(i as int)[0] == segs[i as int]);
            self.segments[i].validate()?;
            assert(segs.skip(i as int).drop_first() =~= segs.skip(i + 1));
            i = i + 1;
        }
        assert(segs.skip(i as int).len() == 0);
        Ok(())
    }
}

/// Where the second-stage bootloader goes, by chip: at 0x1000 on esp32 and
/// esp32s2, at 0x2000 on esp32c5 and esp32p4, and at 0x0 on every other
/// chip (esp32c2, esp32c3, esp32c6, esp32h2, esp32s3).
pub proof fn lemma_bootloader_addresses(chip: ChipFamily)
    ensures
        chip_bootloader_address(chip) == 0x1000 <==> (chip_name(chip) == "esp32"@ || chip_name(chip) == "esp32s2"@),
        chip_bootloader_address(chip) == 0x2000 <==> (chip_name(chip) == "esp32c5"@ || chip_name(chip) == "esp32p4"@),
        chip_bootloader_address(chip) == 0 <==> (chip_name(chip) == "esp32c2"@ || chip_name(chip) == "esp32c3"@
            || chip_name(chip) == "esp32c6"@ || chip_name(chip) == "esp32h2"@ || chip_name(chip) == "esp32s3"@),
{
    reveal_strlit("esp32");
    reveal_strlit("esp32c2");
    reveal_strlit("esp32c3");
    reveal_strlit("esp32c5");
    reveal_strlit("esp32c6");
    reveal_strlit("esp32h2");
    reveal_strlit("esp32p4");
    reveal_strlit("esp32s2");
    reveal_strlit("esp32s3");
    assert("esp32"@.len() == 5);
    assert("esp32c2"@.len() == 7 && "esp32c2"@[5] == 'c' && "esp32c2"@[6] == '2');
    assert("esp32c3"@.len() == 7 && "esp32c3"@[5] == 'c' && "esp32c3"@[6] == '3');
    assert("esp32c5"@.len() == 7 && "esp32c5"@[5] == 'c' && "esp32c5"@[6] == '5');
    assert("esp32c6"@.len() == 7 && "esp32c6"@[5] == 'c' && "esp32c6"@[6] == '6');
    assert("esp32h2"@.len() == 7 && "esp32h2"@[5] == 'h' && "esp32h2"@[6] == '2');
    assert("esp32p4"@.len() == 7 && "esp32p4"@[5] == 'p' && "esp32p4"@[6] == '4');
    assert("esp32s2"@.len() == 7 && "esp32s2"@[5] == 's' && "esp32s2"@[6] == '2');
    assert("esp32s3"@.len() == 7 && "esp32s3"@[5] == 's' && "esp32s3"@[6] == '3');
    // Names are told apart by their length and their last two characters.
    let name = chip_name(chip);
    assert(name.len() == 5 || (name[5] == name[5] && name[6] == name[6]));
}

} // verus!
