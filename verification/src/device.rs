use vstd::prelude::*;
use crate::error::{OperationError, Result};
use crate::manifest::{ChipFamily, chip_name, chip_named};
use crate::models::DetectedDevice;
use crate::operation::OperationStage;
use crate::text::{decimal, hex_char, hex_digit_str, u64_to_decimal};

verus! {

/// The board a flashing session found, from what the ROM bootloader
/// reported: its chip's name, which must name a supported family, a text
/// for its flash size, its MAC address if known, and its flash size.
pub fn detected_device(
    port: &str,
    chip_text: &str,
    flash_text: &str,
    mac: Option<String>,
    flash_size_bytes: u32,
) -> (r: Result<DetectedDevice>)
    ensures
        match chip_named(chip_text@) {
            None => r is Err,
            Some(chip) => r matches Ok(d) && {
                &&& d.port@ == port@
                &&& d.description@ == chip_text@ + " • "@ + flash_text@
                &&& d.chip@ == chip_name(chip)
                &&& d.mac@ == match mac {
                    Some(m) => m@,
                    None => "недоступен"@,
                }
                &&& d.flash_size_bytes == flash_size_bytes
            },
        },
        r matches Err(e) ==> chip_named(chip_text@) is None && crate::error::fails_as(
            e,
            (crate::error::ErrorCode::PackageUnsupported, "Неподдерживаемое семейство ESP32"@),
        ) && (e.detail matches Some(d) && d@ == chip_text@),
{
    let chip = ChipFamily::from_name(chip_text)?;
    let mut description = String::from_str(chip_text);
    description.append(" • ");
    description.append(flash_text);
    proof {
        reveal_strlit(" • ");
        reveal_strlit("недоступен");
    }
    Ok(
        DetectedDevice {
            port: String::from_str(port),
            description,
            chip: String::from_str(chip.as_str()),
            mac: match mac {
                Some(m) => m,
                None => String::from_str("недоступен"),
            },
            flash_size_bytes: flash_size_bytes as u64,
        },
    )
}

// ---------------------------------------------------------------------------
// Progress of a write
// ---------------------------------------------------------------------------

/// The sum of the sizes.
pub open spec fn sum_sizes(s: Seq<usize>) -> int
    decreases s.len(),
{
    if s.len() == 0 {
        0
    } else {
        sum_sizes(s.drop_last()) + s.last()
    }
}

/// `width` upper-case hexadecimal digits of `n`, zero-padded, most
/// significant first.
pub open spec fn fixed_hex(n: nat, width: nat) -> Seq<char>
    decreases width,
{
    if width == 0 {
        Seq::empty()
    } else {
        fixed_hex(n / 16, (width - 1) as nat).push(hex_char((n % 16) as u8, true))
    }
}

pub fn to_fixed_hex(n: u32, width: u32) -> (s: String)
    ensures
        s@ == fixed_hex(n as nat, width as nat),
    decreases width,
{
    if width == 0 {
        return String::new();
    }
    let mut s = to_fixed_hex(n / 16, width - 1);
    s.append(hex_digit_str((n % 16) as u8, true));
    s
}

/// A point of progress over all the bytes of a write.
#[derive(Debug, Clone, PartialEq, Eq)]
pub struct ProgressPoint {
    pub stage: OperationStage,
    pub current: u64,
    pub total: u64,
    pub segment_index: usize,
    pub segment_count: usize,
    pub message: String,
}

/// Turns the flasher's per-segment step counts (of compressed chunks) into
/// progress over the uncompressed bytes of all segments.
#[derive(Debug)]
pub struct ProgressTracker {
    pub total: usize,
    pub completed: usize,
    pub current_steps: usize,
    pub current_size: usize,
    pub segment_sizes: Vec<usize>,
    pub segment_index: usize,
    pub segment_count: usize,
}

/// The bytes done: those of finished segments plus `current`, at most all.
pub open spec fn absolute_progress(completed: usize, current: usize, total: usize) -> int {
    let sum = if completed + current > usize::MAX {
        usize::MAX as int
    } else {
        completed + current
    };
    if sum < total {
        sum
    } else {
        total as int
    }
}

impl ProgressTracker {
    pub fn new(segment_sizes: Vec<usize>) -> (t: ProgressTracker)
        requires
            sum_sizes(segment_sizes@) <= usize::MAX,
        ensures
            t.total == sum_sizes(segment_sizes@),
            t.completed == 0,
            t.current_steps == 0,
            t.current_size == 0,
            t.segment_sizes@ == segment_sizes@,
            t.segment_index == 0,
            t.segment_count == segment_sizes@.len(),
    {
        let mut total: usize = 0;
        let mut i: usize = 0;
        while i < segment_sizes.len()
            invariant
                i <= segment_sizes@.len(),
                total == sum_sizes(segment_sizes@.take(i as int)),
                sum_sizes(segment_sizes@) <= usize::MAX,
            decreases segment_sizes@.len() - i,
        {
            proof {
                assert(segment_sizes@.take(i + 1).drop_last() =~= segment_sizes@.take(i as int));
                lemma_sum_prefix(segment_sizes@, i + 1);
            }
            total = total + segment_sizes[i];
            i = i + 1;
        }
        assert(segment_sizes@.take(i as int) =~= segment_sizes@);
        let count = segment_sizes.len();
        ProgressTracker {
            total,
            completed: 0,
            current_steps: 0,
            current_size: 0,
            segment_sizes,
            segment_index: 0,
            segment_count: count,
        }
    }

    /// The point reached after `current` bytes of the current segment.
    pub fn point(&self, stage: OperationStage, current: usize, message: String) -> (p: ProgressPoint)
        requires
            self.segment_index < usize::MAX,
        ensures
            p.stage == stage,
            p.current == absolute_progress(self.completed, current, self.total),
            p.total == self.total,
            p.segment_index == self.segment_index + 1,
            p.segment_count == self.segment_count,
            p.message == message,
    {
        let sum = self.completed.saturating_add(current);
        let absolute = if sum < self.total { sum } else { self.total };
        ProgressPoint {
            stage,
            current: absolute as u64,
            total: self.total as u64,
            segment_index: self.segment_index + 1,
            segment_count: self.segment_count,
            message,
        }
    }

    /// A segment starts: its steps and size are noted, and the point says
    /// how many bytes go to which address.
    pub fn init(&mut self, address: u32, total_steps: usize) -> (p: ProgressPoint)
        requires
            old(self).segment_index < usize::MAX,
        ensures
            final(self).current_steps == if total_steps > 1 { total_steps } else { 1 },
            final(self).current_size == if old(self).segment_index < old(self).segment_sizes@.len() {
                old(self).segment_sizes@[old(self).segment_index as int]
            } else {
                0
            },
            final(self).total == old(self).total,
            final(self).completed == old(self).completed,
            final(self).segment_sizes == old(self).segment_sizes,
            final(self).segment_index == old(self).segment_index,
            final(self).segment_count == old(self).segment_count,
            p.stage == OperationStage::Writing,
            p.current == absolute_progress(old(self).completed, 0, old(self).total),
            p.total == old(self).total,
            p.segment_index == old(self).segment_index + 1,
            p.message@ == "Запись "@ + decimal(final(self).current_size as nat) + " байт по адресу 0x"@
                + fixed_hex(address as nat, 8),
    {
        self.current_steps = if total_steps > 1 { total_steps } else { 1 };
        self.current_size = if self.segment_index < self.segment_sizes.len() {
            self.segment_sizes[self.segment_index]
        } else {
            0
        };
        let mut message = String::from_str("Запись ");
        let size = u64_to_decimal(self.current_size as u64);
        message.append(size.as_str());
        message.append(" байт по адресу 0x");
        let hex = to_fixed_hex(address, 8);
        message.append(hex.as_str());
        proof {
            reveal_strlit("Запись ");
            reveal_strlit(" байт по адресу 0x");
        }
        self.point(OperationStage::Writing, 0, message)
    }

    /// The flasher reports `current` steps of the segment: the bytes are
    /// that share of the segment's size.
    pub fn update(&mut self, current: usize) -> (p: ProgressPoint)
        requires
            old(self).current_steps > 0,
            old(self).segment_index < usize::MAX,
        ensures
            *final(self) == *old(self),
            p.stage == OperationStage::Writing,
            p.current == absolute_progress(
                old(self).completed,
                (({
                    let steps = if current < old(self).current_steps {
                        current
                    } else {
                        old(self).current_steps
                    };
                    let product = steps * old(self).current_size;
                    if product > usize::MAX {
                        usize::MAX as int
                    } else {
                        product
                    }
                }) / old(self).current_steps as int) as usize,
                old(self).total,
            ),
            p.total == old(self).total,
            p.segment_index == old(self).segment_index + 1,
            p.message@ == "Сегмент "@ + decimal((old(self).segment_index + 1) as nat) + "/"@ + decimal(
                old(self).segment_count as nat,
            ),
    {
        let steps = if current < self.current_steps { current } else { self.current_steps };
        let product = match steps.checked_mul(self.current_size) {
            Some(v) => v,
            None => usize::MAX,
        };
        let bytes = product / self.current_steps;
        let mut message = String::from_str("Сегмент ");
        let index = u64_to_decimal((self.segment_index + 1) as u64);
        message.append(index.as_str());
        message.append("/");
        let count = u64_to_decimal(self.segment_count as u64);
        message.append(count.as_str());
        proof {
            reveal_strlit("Сегмент ");
            reveal_strlit("/");
        }
        self.point(OperationStage::Writing, bytes, message)
    }

    /// The flasher verifies the segment: all its bytes are done.
    pub fn verifying(&self) -> (p: ProgressPoint)
        requires
            self.segment_index < usize::MAX,
        ensures
            p.stage == OperationStage::Verifying,
            p.current == absolute_progress(self.completed, self.current_size, self.total),
            p.total == self.total,
            p.segment_index == self.segment_index + 1,
            p.message@ == "Проверка записанного сегмента"@,
    {
        proof {
            reveal_strlit("Проверка записанного сегмента");
        }
        self.point(
            OperationStage::Verifying,
            self.current_size,
            String::from_str("Проверка записанного сегмента"),
        )
    }

    /// The segment is written: its bytes count as done and the next
    /// segment comes.
    pub fn finish(&mut self) -> (p: ProgressPoint)
        requires
            old(self).segment_index < usize::MAX - 1,
        ensures
            final(self).completed == if old(self).completed + old(self).current_size > usize::MAX {
                usize::MAX as int
            } else {
                old(self).completed + old(self).current_size
            },
            final(self).segment_index == old(self).segment_index + 1,
            final(self).total == old(self).total,
            final(self).current_size == old(self).current_size,
            final(self).current_steps == old(self).current_steps,
            final(self).segment_sizes == old(self).segment_sizes,
            final(self).segment_count == old(self).segment_count,
            p.stage == OperationStage::Writing,
            p.current == absolute_progress(final(self).completed, 0, old(self).total),
            p.total == old(self).total,
            p.segment_index == old(self).segment_index + 1,
            p.message@ == "Сегмент "@ + decimal((old(self).segment_index + 1) as nat) + " записан"@,
    {
        self.completed = self.completed.saturating_add(self.current_size);
        let mut message = String::from_str("Сегмент ");
        let index = u64_to_decimal((self.segment_index + 1) as u64);
        message.append(index.as_str());
        message.append(" записан");
        proof {
            reveal_strlit("Сегмент ");
            reveal_strlit(" записан");
        }
        let p = self.point(OperationStage::Writing, 0, message);
        self.segment_index = self.segment_index + 1;
        p
    }
}

proof fn lemma_sum_prefix(s: Seq<usize>, k: int)
    requires
        0 <= k <= s.len(),
    ensures
        sum_sizes(s.take(k)) <= sum_sizes(s),
    decreases s.len() - k,
{
    if k < s.len() {
        lemma_sum_prefix(s, k + 1);
        assert(s.take(k + 1).drop_last() =~= s.take(k));
    } else {
        assert(s.take(k) =~= s);
    }
}

} // verus!
