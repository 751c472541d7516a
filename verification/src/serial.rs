use vstd::prelude::*;
use crate::error::{ErrorCode, OperationError, Result, fails_as};
use crate::marker::{MarkerDetector, occurs_in};
use crate::models::PortCandidate;
use crate::text::{decimal, u64_to_decimal};

verus! {

/// The USB product id of the chips' built-in USB-Serial-JTAG bridge.
pub const USB_SERIAL_JTAG_PID: u16 = 0x1001;

/// The largest command sent to the UART at once.
pub const MAX_SERIAL_WRITE: usize = 4096;

/// How the monitor opens the port: leaving the board alone, or resetting
/// it into its application.
#[derive(Debug, Clone, Copy, PartialEq, Eq, Structural)]
pub enum MonitorStartMode {
    Passive,
    ResetToNormalBoot,
}

/// What the monitor tells the operation that waits on it.
#[derive(Debug, Clone, PartialEq, Eq)]
pub enum MonitorSignal {
    MarkerMatched,
    Disconnected(String),
}

/// The baud rates the user interface offers for the monitor.
pub open spec fn supported_monitor_baud(baud: u32) -> bool {
    baud == 9_600 || baud == 57_600 || baud == 115_200 || baud == 230_400 || baud == 460_800
        || baud == 921_600
}

/// Accepts the monitor baud rates of the user interface; any other rate is
/// refused, with the rate as detail.
pub fn validate_monitor_baud(baud: u32) -> (r: Result<()>)
    ensures
        (r is Ok) == supported_monitor_baud(baud),
        r matches Err(e) ==> fails_as(e, (ErrorCode::PackageInvalid, "Неподдерживаемая скорость UART-монитора"@))
            && (e.detail matches Some(d) && d@ == decimal(baud as nat)),
{
    if baud == 9_600 || baud == 57_600 || baud == 115_200 || baud == 230_400 || baud == 460_800
        || baud == 921_600 {
        return Ok(());
    }
    Err(
        OperationError::new(
            ErrorCode::PackageInvalid,
            "Неподдерживаемая скорость UART-монитора",
        ).with_detail(u64_to_decimal(baud as u64)),
    )
}

/// A command may be sent to the monitor: at most 4096 bytes, to a monitor
/// that is still connected.
pub fn check_serial_write(length: usize, connected: bool) -> (r: Result<()>)
    ensures
        length > MAX_SERIAL_WRITE ==> (r matches Err(e) && fails_as(
            e,
            (ErrorCode::PackageInvalid, "UART-команда превышает 4096 байт"@),
        )),
        length <= MAX_SERIAL_WRITE && !connected ==> (r matches Err(e) && fails_as(
            e,
            (ErrorCode::DeviceDisconnected, "UART-монитор не подключён"@),
        )),
        length <= MAX_SERIAL_WRITE && connected ==> r is Ok,
{
    if length > MAX_SERIAL_WRITE {
        return Err(OperationError::new(ErrorCode::PackageInvalid, "UART-команда превышает 4096 байт"));
    }
    if !connected {
        return Err(OperationError::new(ErrorCode::DeviceDisconnected, "UART-монитор не подключён"));
    }
    Ok(())
}

// ---------------------------------------------------------------------------
// Watching for the boot marker
// ---------------------------------------------------------------------------

/// Watches the monitor's stream for the success marker and reports it once.
pub struct MarkerWatch {
    detector: Option<MarkerDetector>,
    reported: bool,
}

impl MarkerWatch {
    /// The marker watched for; empty when there is none.
    pub closed spec fn marker(&self) -> Seq<u8> {
        match self.detector {
            Some(d) => d.marker(),
            None => Seq::empty(),
        }
    }

    /// The bytes watched so far (until the marker was reported).
    pub closed spec fn seen(&self) -> Seq<u8> {
        match self.detector {
            Some(d) => d.received(),
            None => Seq::empty(),
        }
    }

    /// Whether the marker was reported.
    pub closed spec fn reported(&self) -> bool {
        self.reported
    }

    pub closed spec fn wf(&self) -> bool {
        &&& (self.detector matches Some(d) ==> d.wf())
        &&& self.reported ==> self.detector is Some
        &&& self.reported == (self.detector is Some && occurs_in(self.seen(), self.marker()))
    }

    /// A watch for the marker's bytes; an empty marker watches for nothing.
    pub fn new(marker: &str) -> (r: Result<MarkerWatch>)
        ensures
            marker@.len() > 0 && vstd::utf8::encode_utf8(marker@).len() > 256 ==> (r matches Err(e)
                && fails_as(e, (ErrorCode::PackageInvalid, "UART-маркер должен занимать от 1 до 256 байт"@))),
            !(marker@.len() > 0 && vstd::utf8::encode_utf8(marker@).len() > 256) ==> (r matches Ok(w)
                && w.wf() && w.marker() == (if marker@.len() == 0 {
                Seq::empty()
            } else {
                vstd::utf8::encode_utf8(marker@)
            }) && w.seen() == Seq::<u8>::empty() && !w.reported()),
    {
        if marker.is_empty() {
            return Ok(MarkerWatch { detector: None, reported: false });
        }
        let detector = MarkerDetector::new(marker.as_bytes())?;
        Ok(MarkerWatch { detector: Some(detector), reported: false })
    }

    /// Watches one chunk: true the first time the marker has appeared in
    /// the bytes watched, false before and ever after.
    pub fn observe(&mut self, chunk: &[u8]) -> (r: bool)
        requires
            old(self).wf(),
        ensures
            final(self).wf(),
            final(self).marker() == old(self).marker(),
            old(self).reported() ==> !r && final(self).reported() && final(self).seen() == old(self).seen(),
            !old(self).reported() && old(self).marker().len() > 0 ==> final(self).seen() == old(self).seen()
                + chunk@,
            r == (!old(self).reported() && old(self).marker().len() > 0 && occurs_in(
                old(self).seen() + chunk@,
                old(self).marker(),
            )),
            final(self).reported() == (old(self).reported() || r),
    {
        if self.reported {
            return false;
        }
        match &mut self.detector {
            None => false,
            Some(detector) => {
                proof {
                    detector.lemma_marker_len();
                }
                let found = detector.feed(chunk);
                if found {
                    self.reported = true;
                }
                found
            },
        }
    }
}

// ---------------------------------------------------------------------------
// Serial ports
// ---------------------------------------------------------------------------

/// What kind of port the system reports, with the USB descriptors.
#[derive(Debug, Clone, PartialEq, Eq)]
pub enum PortKind {
    Usb {
        vid: u16,
        pid: u16,
        serial_number: Option<String>,
        manufacturer: Option<String>,
        product: Option<String>,
    },
    Bluetooth,
    Pci,
    Unknown,
}

/// USB vendors of the bridges ESP32 boards use: Espressif, Silicon Labs,
/// WCH and FTDI.
pub open spec fn known_bridge_vid(vid: u16) -> bool {
    vid == 0x303A || vid == 0x10C4 || vid == 0x1A86 || vid == 0x0403
}

pub open spec fn opt_text(s: Option<String>) -> Option<Seq<char>> {
    match s {
        Some(x) => Some(x@),
        None => None,
    }
}

/// A port as offered to the user: a USB port is described by its product,
/// else its manufacturer, else `USB Serial`, and is a known bridge when its
/// vendor is one; other kinds are described by their kind.
pub fn port_candidate(port: String, kind: PortKind) -> (c: PortCandidate)
    ensures
        c.port == port,
        match kind {
            PortKind::Usb { vid, pid, serial_number, manufacturer, product } => {
                &&& c.description@ == match (product, manufacturer) {
                    (Some(p), _) => p@,
                    (None, Some(m)) => m@,
                    (None, None) => "USB Serial"@,
                }
                &&& c.vid == Some(vid)
                &&& c.pid == Some(pid)
                &&& opt_text(c.serial_number) == opt_text(serial_number)
                &&& c.known_bridge == known_bridge_vid(vid)
            },
            PortKind::Bluetooth => c.description@ == "Bluetooth"@ && c.vid is None && c.pid is None
                && c.serial_number is None && !c.known_bridge,
            PortKind::Pci => c.description@ == "PCI Serial"@ && c.vid is None && c.pid is None
                && c.serial_number is None && !c.known_bridge,
            PortKind::Unknown => c.description@ == "Serial port"@ && c.vid is None && c.pid is None
                && c.serial_number is None && !c.known_bridge,
        },
{
    proof {
        reveal_strlit("USB Serial");
        reveal_strlit("Bluetooth");
        reveal_strlit("PCI Serial");
        reveal_strlit("Serial port");
    }
    match kind {
        PortKind::Usb { vid, pid, serial_number, manufacturer, product } => {
            let description = match (product, manufacturer) {
                (Some(p), _) => p,
                (None, Some(m)) => m,
                (None, None) => String::from_str("USB Serial"),
            };
            let known_bridge = vid == 0x303A || vid == 0x10C4 || vid == 0x1A86 || vid == 0x0403;
            PortCandidate { port, description, vid: Some(vid), pid: Some(pid), serial_number, known_bridge }
        },
        PortKind::Bluetooth => PortCandidate {
            port,
            description: String::from_str("Bluetooth"),
            vid: None,
            pid: None,
            serial_number: None,
            known_bridge: false,
        },
        PortKind::Pci => PortCandidate {
            port,
            description: String::from_str("PCI Serial"),
            vid: None,
            pid: None,
            serial_number: None,
            known_bridge: false,
        },
        PortKind::Unknown => PortCandidate {
            port,
            description: String::from_str("Serial port"),
            vid: None,
            pid: None,
            serial_number: None,
            known_bridge: false,
        },
    }
}

pub open spec fn ascii_digit(c: char) -> bool {
    '0' <= c <= '9'
}

/// The index of the first ASCII digit, or the length.
pub open spec fn first_digit(s: Seq<char>) -> nat
    decreases s.len(),
{
    if s.len() == 0 || ascii_digit(s[0]) {
        0
    } else {
        1 + first_digit(s.drop_first())
    }
}

/// The value of a run of decimal digits.
pub open spec fn digits_value(s: Seq<char>) -> nat
    decreases s.len(),
{
    if s.len() == 0 {
        0
    } else {
        digits_value(s.drop_last()) * 10 + ((s.last() as u32) - ('0' as u32)) as nat
    }
}

/// The number a port name ends with, as `str::parse::<u32>` reads what
/// follows the name's first digit: `u32::MAX` when that is not a number
/// that fits.
pub open spec fn port_number(rest: Seq<char>) -> u32 {
    if rest.len() > 0 && (forall|i: int| 0 <= i < rest.len() ==> ascii_digit(#[trigger] rest[i]))
        && digits_value(rest) <= u32::MAX {
        digits_value(rest) as u32
    } else {
        u32::MAX
    }
}

/// How port names are ordered: the text before the first digit, then the
/// number from there (so `COM2` comes before `COM10`).
pub open spec fn spec_natural_port_key(port: Seq<char>) -> (Seq<char>, u32) {
    let k = first_digit(port) as int;
    (port.take(k), port_number(port.skip(k)))
}

proof fn lemma_first_digit(s: Seq<char>)
    ensures
        first_digit(s) <= s.len(),
        forall|i: int| 0 <= i < first_digit(s) ==> !ascii_digit(#[trigger] s[i]),
        first_digit(s) < s.len() ==> ascii_digit(s[first_digit(s) as int]),
    decreases s.len(),
{
    if s.len() > 0 && !ascii_digit(s[0]) {
        lemma_first_digit(s.drop_first());
        assert forall|i: int| 0 <= i < first_digit(s) implies !ascii_digit(#[trigger] s[i]) by {
            if i > 0 {
                assert(s[i] == s.drop_first()[i - 1]);
            }
        }
    }
}

pub fn natural_port_key(port: &str) -> (key: (String, u32))
    ensures
        key.0@ == spec_natural_port_key(port@).0,
        key.1 == spec_natural_port_key(port@).1,
{
    let c = crate::text::chars_of(port);
    let n = c.len();
    let mut k: usize = 0;
    proof {
        lemma_first_digit(port@);
    }
    while k < n && !('0' <= c[k] && c[k] <= '9')
        invariant
            c@ == port@,
            n == c@.len(),
            k <= first_digit(port@),
            first_digit(port@) <= n,
            forall|i: int| 0 <= i < first_digit(port@) ==> !ascii_digit(#[trigger] port@[i]),
            first_digit(port@) < n ==> ascii_digit(port@[first_digit(port@) as int]),
        decreases n - k,
    {
        k = k + 1;
    }
    assert(k == first_digit(port@));
    let prefix = String::from_str(port.substring_char(0, k));
    let ghost rest = port@.skip(k as int);
    let mut value: u64 = 0;
    let mut valid = k < n;
    let mut j: usize = k;
    while j < n && valid
        invariant
            c@ == port@,
            n == c@.len(),
            k <= j <= n,
            rest == port@.skip(k as int),
            valid ==> k < n,
            valid ==> value == digits_value(rest.take(j - k)) && value <= u32::MAX
                && forall|i: int| 0 <= i < j - k ==> ascii_digit(#[trigger] rest[i]),
            !valid ==> port_number(rest) == u32::MAX,
        decreases n - j,
    {
        let ch = c[j];
        assert(rest[j - k] == ch);
        proof {
            assert(rest.take(j - k + 1).drop_last() =~= rest.take(j - k));
        }
        if '0' <= ch && ch <= '9' {
            let d = (ch as u32 - '0' as u32) as u64;
            let next = value * 10 + d;
            proof {
                assert(rest.take(j - k + 1).last() == ch);
                assert(digits_value(rest.take(j - k + 1)) == value * 10 + d);
            }
            if next > u32::MAX as u64 {
                valid = false;
                proof {
                    if forall|i: int| 0 <= i < rest.len() ==> ascii_digit(#[trigger] rest[i]) {
                        lemma_digits_grow(rest, (j - k + 1) as int);
                    }
                }
            } else {
                value = next;
            }
        } else {
            valid = false;
        }
        j = j + 1;
    }
    if valid {
        assert(rest.take(j - k) =~= rest);
        assert(rest.len() > 0);
        assert(forall|i: int| 0 <= i < rest.len() ==> ascii_digit(#[trigger] rest[i]));
        assert(port_number(rest) == value);
        (prefix, value as u32)
    } else {
        (prefix, u32::MAX)
    }
}

/// A longer run of digits is worth at least as much as its start.
proof fn lemma_digits_grow(s: Seq<char>, k: int)
    requires
        0 <= k <= s.len(),
        forall|i: int| 0 <= i < s.len() ==> ascii_digit(#[trigger] s[i]),
    ensures
        digits_value(s.take(k)) <= digits_value(s),
    decreases s.len() - k,
{
    if k < s.len() {
        lemma_digits_grow(s, k + 1);
        assert(s.take(k + 1).drop_last() =~= s.take(k));
    } else {
        assert(s.take(k) =~= s);
    }
}

/// The first port whose name equals the requested one, ignoring ASCII case.
pub fn find_port_index(names: &[String], name: &str) -> (r: Option<usize>)
    ensures
        match r {
            Some(i) => i < names@.len() && crate::text::ascii_lower(names@[i as int]@)
                == crate::text::ascii_lower(name@) && forall|k: int| 0 <= k < i ==> crate::text::ascii_lower(
                (#[trigger] names@[k])@,
            ) != crate::text::ascii_lower(name@),
            None => forall|k: int| 0 <= k < names@.len() ==> crate::text::ascii_lower(
                (#[trigger] names@[k])@,
            ) != crate::text::ascii_lower(name@),
        },
{
    let mut i: usize = 0;
    while i < names.len()
        invariant
            i <= names@.len(),
            forall|k: int| 0 <= k < i ==> crate::text::ascii_lower((#[trigger] names@[k])@)
                != crate::text::ascii_lower(name@),
        decreases names@.len() - i,
    {
        if crate::text::eq_ignore_ascii_case(names[i].as_str(), name) {
            return Some(i);
        }
        i = i + 1;
    }
    None
}

} // verus!
