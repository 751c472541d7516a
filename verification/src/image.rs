use vstd::prelude::*;
use crate::bytes::{le_u16_at, read_u16_le};
use crate::error::{ErrorCode, Failure, OperationError, fails_as, outcome_is};
use crate::manifest::{ChipFamily, chip_name};
use crate::text::{decimal, u64_to_decimal};

verus! {

pub const ESP_IMAGE_MAGIC: u8 = 0xE9;
pub const ESP_IMAGE_HEADER_SIZE: usize = 24;

/// The chip family an image header's chip id names.
pub open spec fn chip_of_image_id(value: u16) -> Option<ChipFamily> {
    if value == 0 {
        Some(ChipFamily::Esp32)
    } else if value == 2 {
        Some(ChipFamily::Esp32s2)
    } else if value == 5 {
        Some(ChipFamily::Esp32c3)
    } else if value == 9 {
        Some(ChipFamily::Esp32s3)
    } else if value == 12 {
        Some(ChipFamily::Esp32c2)
    } else if value == 13 {
        Some(ChipFamily::Esp32c6)
    } else if value == 16 {
        Some(ChipFamily::Esp32h2)
    } else if value == 18 {
        Some(ChipFamily::Esp32p4)
    } else if value == 23 {
        Some(ChipFamily::Esp32c5)
    } else {
        None
    }
}

pub fn chip_from_image_id(value: u16) -> (r: Option<ChipFamily>)
    ensures
        r == chip_of_image_id(value),
{
    match value {
        0 => Some(ChipFamily::Esp32),
        2 => Some(ChipFamily::Esp32s2),
        5 => Some(ChipFamily::Esp32c3),
        9 => Some(ChipFamily::Esp32s3),
        12 => Some(ChipFamily::Esp32c2),
        13 => Some(ChipFamily::Esp32c6),
        16 => Some(ChipFamily::Esp32h2),
        18 => Some(ChipFamily::Esp32p4),
        23 => Some(ChipFamily::Esp32c5),
        _ => None,
    }
}

/// The chip id stored in bytes 12..14 of an image header.
pub open spec fn image_chip_id(bytes: Seq<u8>) -> u16 {
    le_u16_at(bytes, 12) as u16
}

/// An ESP application image: at least a 24-byte header starting with the
/// magic byte 0xE9, whose chip id names a known family that is allowed.
pub open spec fn spec_validate_esp_image(bytes: Seq<u8>, allowed: Seq<ChipFamily>) -> Result<ChipFamily, Failure> {
    if bytes.len() < ESP_IMAGE_HEADER_SIZE || bytes[0] != ESP_IMAGE_MAGIC {
        Err((ErrorCode::PackageInvalid, "Application BIN не содержит корректный ESP image header"@))
    } else {
        match chip_of_image_id(image_chip_id(bytes)) {
            None => Err((ErrorCode::PackageUnsupported, "Application BIN предназначен для неизвестного ESP-чипа"@)),
            Some(chip) => if allowed.contains(chip) {
                Ok(chip)
            } else {
                Err((ErrorCode::ChipMismatch, "Чип application BIN отсутствует в target_chips"@))
            },
        }
    }
}

/// Whether `chip` is in the list.
pub fn contains_chip(chips: &[ChipFamily], chip: ChipFamily) -> (r: bool)
    ensures
        r == chips@.contains(chip),
{
    let mut i: usize = 0;
    while i < chips.len()
        invariant
            i <= chips@.len(),
            forall|k: int| 0 <= k < i ==> chips@[k] != chip,
        decreases chips@.len() - i,
    {
        if chips[i] == chip {
            assert(chips@[i as int] == chip);
            return true;
        }
        i = i + 1;
    }
    false
}

pub fn validate_esp_image(bytes: &[u8], allowed_chips: &[ChipFamily]) -> (r: Result<ChipFamily, OperationError>)
    ensures
        outcome_is(r, spec_validate_esp_image(bytes@, allowed_chips@)),
        r matches Err(e) ==> (
            if bytes@.len() < ESP_IMAGE_HEADER_SIZE || bytes@[0] != ESP_IMAGE_MAGIC {
                e.detail is None
            } else {
                match chip_of_image_id(image_chip_id(bytes@)) {
                    None => e.detail matches Some(d) && d@ == decimal(image_chip_id(bytes@) as nat),
                    Some(chip) => e.detail matches Some(d) && d@ == chip_name(chip),
                }
            }
        ),
{
    if bytes.len() < ESP_IMAGE_HEADER_SIZE || bytes[0] != ESP_IMAGE_MAGIC {
        return Err(
            OperationError::new(
                ErrorCode::PackageInvalid,
                "Application BIN не содержит корректный ESP image header",
            ),
        );
    }
    let chip_id = read_u16_le(bytes, 12);
    let chip = match chip_from_image_id(chip_id) {
        Some(chip) => chip,
        None => {
            return Err(
                OperationError::new(
                    ErrorCode::PackageUnsupported,
                    "Application BIN предназначен для неизвестного ESP-чипа",
                ).with_detail(u64_to_decimal(chip_id as u64)),
            );
        },
    };
    if !contains_chip(allowed_chips, chip) {
        return Err(
            OperationError::new(
                ErrorCode::ChipMismatch,
                "Чип application BIN отсутствует в target_chips",
            ).with_detail(String::from_str(chip.as_str())),
        );
    }
    Ok(chip)
}

/// An accepted image is for one of the allowed chips, the one its header names.
pub proof fn lemma_accepted_image_targets_allowed_chip(bytes: Seq<u8>, allowed: Seq<ChipFamily>)
    requires
        spec_validate_esp_image(bytes, allowed) is Ok,
    ensures
        allowed.contains(spec_validate_esp_image(bytes, allowed)->Ok_0),
        chip_of_image_id(image_chip_id(bytes)) == Some(spec_validate_esp_image(bytes, allowed)->Ok_0),
        bytes[0] == ESP_IMAGE_MAGIC,
{
}

/// The chip ids of the ESP image header, as the ROM assigns them: 0 is
/// esp32, 2 esp32s2, 5 esp32c3, 9 esp32s3, 12 esp32c2, 13 esp32c6, 16 esp32h2,
/// 18 esp32p4 and 23 esp32c5; no other id names a chip.
pub proof fn lemma_image_chip_ids(id: u16, chip: ChipFamily)
    ensures
        chip_of_image_id(id) == Some(chip) <==> {
            ||| id == 0 && chip_name(chip) == "esp32"@
            ||| id == 2 && chip_name(chip) == "esp32s2"@
            ||| id == 5 && chip_name(chip) == "esp32c3"@
            ||| id == 9 && chip_name(chip) == "esp32s3"@
            ||| id == 12 && chip_name(chip) == "esp32c2"@
            ||| id == 13 && chip_name(chip) == "esp32c6"@
            ||| id == 16 && chip_name(chip) == "esp32h2"@
            ||| id == 18 && chip_name(chip) == "esp32p4"@
            ||| id == 23 && chip_name(chip) == "esp32c5"@
        },
        chip_of_image_id(id) is Some <==> (id == 0 || id == 2 || id == 5 || id == 9 || id == 12 || id == 13 || id == 16 || id == 18 || id == 23),
{
    reveal_strlit("esp32");
    reveal_strlit("esp32c2");
    reveal_strlit("esp32c3");
    reveal_strlit("esp32c5");
    reveal_strlit("esp32c6");
    reveal_strlit("esp32h2");
    reveal_strlit("esp32p4");
    reveal_strlit("esp32s2");
    reveal_strlit("esp32s3");
    assert("esp32"@.len() == 5);
    assert("esp32c2"@.len() == 7 && "esp32c2"@[5] == 'c' && "esp32c2"@[6] == '2');
    assert("esp32c3"@.len() == 7 && "esp32c3"@[5] == 'c' && "esp32c3"@[6] == '3');
    assert("esp32c5"@.len() == 7 && "esp32c5"@[5] == 'c' && "esp32c5"@[6] == '5');
    assert("esp32c6"@.len() == 7 && "esp32c6"@[5] == 'c' && "esp32c6"@[6] == '6');
    assert("esp32h2"@.len() == 7 && "esp32h2"@[5] == 'h' && "esp32h2"@[6] == '2');
    assert("esp32p4"@.len() == 7 && "esp32p4"@[5] == 'p' && "esp32p4"@[6] == '4');
    assert("esp32s2"@.len() == 7 && "esp32s2"@[5] == 's' && "esp32s2"@[6] == '2');
    assert("esp32s3"@.len() == 7 && "esp32s3"@[5] == 's' && "esp32s3"@[6] == '3');
    // Names are told apart by their length and their last two characters.
    let name = chip_name(chip);
    assert(name.len() == 5 || (name[5] == name[5] && name[6] == name[6]));
}

} // verus!
