use vstd::prelude::*;

verus! {

/// The little-endian 16-bit value stored at `at`.
pub open spec fn le_u16_at(s: Seq<u8>, at: int) -> int {
    s[at] + s[at + 1] * 256
}

/// The little-endian 32-bit value stored at `at`.
pub open spec fn le_u32_at(s: Seq<u8>, at: int) -> int {
    s[at] + s[at + 1] * 256 + s[at + 2] * 65536 + s[at + 3] * 16777216
}

/// The four little-endian bytes of a 32-bit value.
pub open spec fn u32_le_bytes(v: u32) -> Seq<u8> {
    seq![(v % 256) as u8, ((v / 256) % 256) as u8, ((v / 65536) % 256) as u8, (v / 16777216) as u8]
}

pub fn read_u16_le(bytes: &[u8], at: usize) -> (v: u16)
    requires
        at + 2 <= bytes@.len(),
    ensures
        v == le_u16_at(bytes@, at as int),
{
    bytes[at] as u16 + (bytes[at + 1] as u16) * 256
}

pub fn read_u32_le(bytes: &[u8], at: usize) -> (v: u32)
    requires
        at + 4 <= bytes@.len(),
    ensures
        v == le_u32_at(bytes@, at as int),
{
    bytes[at] as u32 + (bytes[at + 1] as u32) * 256 + (bytes[at + 2] as u32) * 65536 + (bytes[at
        + 3] as u32) * 16777216
}

pub fn u32_to_le_bytes(v: u32) -> (b: Vec<u8>)
    ensures
        b@ == u32_le_bytes(v),
{
    let mut b: Vec<u8> = Vec::new();
    b.push((v % 256) as u8);
    b.push(((v / 256) % 256) as u8);
    b.push(((v / 65536) % 256) as u8);
    b.push((v / 16777216) as u8);
    assert(b@ =~= u32_le_bytes(v));
    b
}

/// Reading back the little-endian bytes of a value gives the value.
pub proof fn lemma_u32_le_roundtrip(v: u32)
    ensures
        le_u32_at(u32_le_bytes(v), 0) == v,
{
    let b = u32_le_bytes(v);
    assert(b[0] == v % 256);
    assert(b[1] == (v / 256) % 256);
    assert(b[2] == (v / 65536) % 256);
    assert(b[3] == v / 16777216);
    assert((v % 256) + ((v / 256) % 256) * 256 + ((v / 65536) % 256) * 65536 + (v / 16777216)
        * 16777216 == v) by (nonlinear_arith);
}

pub fn bytes_equal(a: &[u8], b: &[u8]) -> (r: bool)
    ensures
        r == (a@ == b@),
{
    if a.len() != b.len() {
        return false;
    }
    let mut i: usize = 0;
    while i < a.len()
        invariant
            a@.len() == b@.len(),
            i <= a@.len(),
            forall|j: int| 0 <= j < i ==> a@[j] == b@[j],
        decreases a@.len() - i,
    {
        if a[i] != b[i] {
            return false;
        }
        i = i + 1;
    }
    assert(a@ =~= b@);
    true
}

/// Whether every byte equals `value`.
pub fn all_bytes_are(bytes: &[u8], value: u8) -> (r: bool)
    ensures
        r == (forall|j: int| 0 <= j < bytes@.len() ==> bytes@[j] == value),
{
    let mut i: usize = 0;
    while i < bytes.len()
        invariant
            i <= bytes@.len(),
            forall|j: int| 0 <= j < i ==> bytes@[j] == value,
        decreases bytes@.len() - i,
    {
        if bytes[i] != value {
            return false;
        }
        i = i + 1;
    }
    true
}

} // verus!
