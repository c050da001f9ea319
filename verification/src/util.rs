//! Alignment and little-endian decoding helpers shared by the kernel subsystems.
use vstd::prelude::*;
use vstd::string::StringSliceAdditionalSpecFns;

verus! {

/// `core::str::from_utf8`: the bytes as a string slice exactly when they
/// are well-formed UTF-8.
#[verifier::external_body]
pub(crate) fn utf8_str(bytes: &[u8]) -> (r: Option<&str>)
    ensures
        r is Some <==> vstd::utf8::valid_utf8(bytes@),
        r matches Some(text) ==> text.spec_bytes() == bytes@,
{
    core::str::from_utf8(bytes).ok()
}

/// Alignments used by the kernel: 8 and 16 bytes for stack data, 4 KiB pages
/// and 2 MiB large pages.
pub open spec fn supported_alignment(align: u64) -> bool {
    align == 8 || align == 16 || align == 4096 || align == 0x20_0000
}

/// The greatest multiple of `align` that is not above `value`.
pub open spec fn spec_align_down(value: u64, align: u64) -> int {
    value - value % align
}

/// The least multiple of `align` that is not below `value`.
pub open spec fn spec_align_up(value: u64, align: u64) -> int {
    if value % align == 0 { value as int } else { value - value % align + align }
}

/// `align` is a power of two. The kernel's own alignments are listed first,
/// so that callers using them need no proof.
pub open spec fn is_power_of_two(align: u64) -> bool {
    supported_alignment(align) || exists|k: nat| k < 64 && align as nat == vstd::arithmetic::power2::pow2(k)
}

/// Rounds `value` down to the previous multiple of `align`.
pub fn align_down(value: u64, align: u64) -> (r: u64)
    requires
        is_power_of_two(align),
    ensures
        r == spec_align_down(value, align),
{
    proof {
        if align == 8 {
            assert(value & !7u64 == value - value % 8) by (bit_vector);
        } else if align == 16 {
            assert(value & !15u64 == value - value % 16) by (bit_vector);
        } else if align == 4096 {
            assert(value & !4095u64 == value - value % 4096) by (bit_vector);
        } else if align == 0x20_0000 {
            assert(value & !0x1f_ffffu64 == value - value % 0x20_0000) by (bit_vector);
        } else {
            let k = choose|k: nat| k < 64 && align as nat == vstd::arithmetic::power2::pow2(k);
            vstd::bits::lemma_u64_low_bits_mask_is_mod(value, k);
            vstd::bits::lemma_u64_pow2_no_overflow(k);
            let m = (align - 1) as u64;
            assert(vstd::bits::low_bits_mask(k) as u64 == m);
            assert(value & !m == value - (value & m)) by (bit_vector);
        }
    }
    value & !(align - 1)
}

/// Rounds `value` up to the next multiple of `align`; zero stays zero.
pub fn align_up(value: u64, align: u64) -> (r: u64)
    requires
        is_power_of_two(align),
        value + align - 1 <= u64::MAX,
    ensures
        r == spec_align_up(value, align),
{
    proof {
        if !supported_alignment(align) {
            let k = choose|k: nat| k < 64 && align as nat == vstd::arithmetic::power2::pow2(k);
            vstd::arithmetic::power2::lemma_pow2_pos(k);
        }
    }
    if value == 0 {
        0
    } else {
        let v = value + (align - 1);
        let r = align_down(v, align);
        assert(r == spec_align_up(value, align)) by {
            if value % align == 0 {
                assert(v % align == align - 1) by (nonlinear_arith)
                    requires v == value + (align - 1), value % align == 0, align > 0;
            } else {
                assert(v % align == value % align - 1) by (nonlinear_arith)
                    requires v == value + (align - 1), value % align != 0, align > 0;
            }
        }
        r
    }
}

} // verus!

verus! {

/// Little-endian value of two bytes.
pub open spec fn spec_le_u16(s: Seq<u8>) -> int {
    s[0] + s[1] * 0x100
}

/// Bit-level facts: clearing the low four bits of `x` rounds it down to a
/// multiple of 16 by at most 15; a 16-bit `high` half shifted above a 16-bit
/// `low` half joins them as base-65536 digits; and setting the top bit of a
/// byte below 0x80 keeps its low seven bits, which are the byte itself.
pub proof fn lemma_bit_facts(x: u64, high: u32, low: u32, b: u8)
    by (bit_vector)
    requires
        high < 0x1_0000,
        low < 0x1_0000,
    ensures
        x & !0xfu64 <= x,
        (x & !0xfu64) + 15 >= x,
        (x & !0xfu64) % 16 == 0,
        (high << 16u32) | low == high * 0x1_0000 + low,
        b < 0x80 ==> b & 0x7fu8 == b && b & 0x80u8 == 0 && (b | 0x80u8) & 0x7fu8 == b && (b | 0x80u8) & 0x80u8 != 0,
{
}

/// Little-endian value of four bytes.
pub open spec fn spec_le_u32(s: Seq<u8>) -> int {
    s[0] + s[1] * 0x100 + s[2] * 0x1_0000 + s[3] * 0x100_0000
}

/// Little-endian value of eight bytes.
pub open spec fn spec_le_u64(s: Seq<u8>) -> int {
    spec_le_u32(s) + spec_le_u32(s.subrange(4, 8)) * 0x1_0000_0000
}

/// Reads the little-endian `u16` at `offset`.
pub fn le_u16_from_bytes(bytes: &[u8], offset: usize) -> (r: u16)
    requires
        offset + 2 <= bytes@.len(),
    ensures
        r == spec_le_u16(bytes@.subrange(offset as int, offset + 2)),
{
    let b0 = bytes[offset];
    let b1 = bytes[offset + 1];
    assert((b0 as u16 | ((b1 as u16) << 8u16)) == b0 + b1 * 0x100) by (bit_vector);
    b0 as u16 | ((b1 as u16) << 8u16)
}

/// Reads the little-endian `u32` at `offset`.
pub fn le_u32_from_bytes(bytes: &[u8], offset: usize) -> (r: u32)
    requires
        offset + 4 <= bytes@.len(),
    ensures
        r == spec_le_u32(bytes@.subrange(offset as int, offset + 4)),
{
    let b0 = bytes[offset];
    let b1 = bytes[offset + 1];
    let b2 = bytes[offset + 2];
    let b3 = bytes[offset + 3];
    let r = b0 as u32 | ((b1 as u32) << 8u32) | ((b2 as u32) << 16u32) | ((b3 as u32) << 24u32);
    assert(r == b0 + b1 * 0x100 + b2 * 0x1_0000 + b3 * 0x100_0000) by (bit_vector)
        requires
            r == b0 as u32 | ((b1 as u32) << 8u32) | ((b2 as u32) << 16u32) | ((b3 as u32) << 24u32);
    r
}

/// Reads the little-endian `u64` at `offset`.
pub fn le_u64_from_bytes(bytes: &[u8], offset: usize) -> (r: u64)
    requires
        offset + 8 <= bytes@.len(),
    ensures
        r == spec_le_u64(bytes@.subrange(offset as int, offset + 8)),
{
    let _n = bytes.len();
    let lo = le_u32_from_bytes(bytes, offset);
    let hi = le_u32_from_bytes(bytes, offset + 4);
    assert(bytes@.subrange(offset as int, offset + 8).subrange(4, 8) =~= bytes@.subrange(offset + 4, offset + 8));
    assert(bytes@.subrange(offset as int, offset + 8).subrange(0, 4) =~= bytes@.subrange(offset as int, offset + 4));
    let r = lo as u64 | ((hi as u64) << 32u64);
    assert(r == lo + hi * 0x1_0000_0000) by (bit_vector)
        requires
            r == lo as u64 | ((hi as u64) << 32u64);
    r
}

/// Encodes `value` as four little-endian bytes.
pub fn le_u32_to_bytes(value: u32) -> (r: Vec<u8>)
    ensures
        r@.len() == 4,
        spec_le_u32(r@) == value,
{
    let x0 = value & 0xff;
    let x1 = (value >> 8u32) & 0xff;
    let x2 = (value >> 16u32) & 0xff;
    let x3 = (value >> 24u32) & 0xff;
    assert(x0 < 256 && x1 < 256 && x2 < 256 && x3 < 256 && value == x0 + x1 * 0x100 + x2 * 0x1_0000 + x3 * 0x100_0000) by (bit_vector)
        requires
            x0 == value & 0xff,
            x1 == (value >> 8u32) & 0xff,
            x2 == (value >> 16u32) & 0xff,
            x3 == (value >> 24u32) & 0xff;
    let mut r = Vec::new();
    r.push(x0 as u8);
    r.push(x1 as u8);
    r.push(x2 as u8);
    r.push(x3 as u8);
    r
}

/// Encodes `value` as eight little-endian bytes.
pub fn le_u64_to_bytes(value: u64) -> (r: Vec<u8>)
    ensures
        r@.len() == 8,
        spec_le_u64(r@) == value,
{
    let lo64 = value & 0xffff_ffff;
    let hi64 = value >> 32u64;
    assert(lo64 <= 0xffff_ffff && hi64 <= 0xffff_ffff && value == lo64 + hi64 * 0x1_0000_0000) by (bit_vector)
        requires
            lo64 == value & 0xffff_ffff,
            hi64 == value >> 32u64;
    let mut r = le_u32_to_bytes(lo64 as u32);
    let h = le_u32_to_bytes(hi64 as u32);
    let ghost lo_bytes = r@;
    r.push(h[0]);
    r.push(h[1]);
    r.push(h[2]);
    r.push(h[3]);
    assert(r@.subrange(4, 8) =~= h@);
    assert(r@.subrange(0, 4) =~= lo_bytes);
    r
}

} // verus!

verus! {

/// Byte-wise equality of two slices.
pub fn bytes_equal(a: &[u8], b: &[u8]) -> (r: bool)
    ensures
        r == (a@ == b@),
{
    if a.len() != b.len() {
        return false;
    }
    let mut i: usize = 0;
    while i < a.len()
        invariant
            a@.len() == b@.len(),
            i <= a@.len(),
            forall|k: int| 0 <= k < i ==> a@[k] == b@[k],
        decreases a@.len() - i,
    {
        if a[i] != b[i] {
            return false;
        }
        i += 1;
    }
    assert(a@ =~= b@);
    true
}

} // verus!
