//! USB-HID transport rules: the badge's vendor/product signature and the
//! report framing used on platforms whose HID layer wants a leading
//! report-ID byte in front of every 64-byte block.

use vstd::prelude::*;

verus! {

/// The USB vendor identifier of the one supported badge.
pub const BADGE_VENDOR_ID: u16 = 0x0416;

/// The USB product identifier of the one supported badge.
pub const BADGE_PRODUCT_ID: u16 = 0x5020;

/// Whether a HID device's vendor/product identifier pair is the badge's:
/// discovery keeps exactly the devices for which this holds.
pub fn is_badge_signature(vendor_id: u16, product_id: u16) -> (r: bool)
    ensures
        r <==> (vendor_id == 0x0416 && product_id == 0x5020),
{
    vendor_id == BADGE_VENDOR_ID && product_id == BADGE_PRODUCT_ID
}

/// Frame the 64-byte block of the payload at `offset` as a 65-byte HID
/// report: a zero report-ID byte followed by the block unchanged.
pub fn prepend_byte_and_offset(data: &Vec<u8>, offset: usize) -> (r: Vec<u8>)
    requires
        offset + 64 <= data@.len(),
    ensures
        r@.len() == 65,
        r@[0] == 0u8,
        r@.subrange(1, 65) == data@.subrange(offset as int, offset + 64),
{
    let n = data.len();
    let mut r: Vec<u8> = Vec::new();
    r.push(0u8);
    let mut j: usize = 0;
    while j < 64
        invariant
            j <= 64,
            n == data@.len(),
            offset + 64 <= n,
            r@.len() == 1 + j,
            r@[0] == 0u8,
            forall|t: int| 0 <= t < j ==> (#[trigger] r@[1 + t]) == data@[offset + t],
        decreases 64 - j,
    {
        r.push(data[offset + j]);
        j = j + 1;
    }
    proof {
        assert forall|t: int| 0 <= t < 64 implies r@.subrange(1, 65)[t] == data@.subrange(
            offset as int,
            offset + 64,
        )[t] by {
            assert(r@[1 + t] == data@[offset + t]);
        }
        assert(r@.subrange(1, 65) =~= data@.subrange(offset as int, offset + 64));
    }
    r
}

/// The write plan for a platform that needs report-ID framing: one
/// 65-byte report per 64-byte block of the padded payload, in ascending
/// offset order.
pub fn report_id_write_plan(data: &Vec<u8>) -> (r: Vec<Vec<u8>>)
    requires
        data@.len() as int % 64 == 0,
    ensures
        r@.len() == data@.len() as int / 64,
        forall|i: int|
            0 <= i < r@.len() ==> {
                &&& (#[trigger] r@[i])@.len() == 65
                &&& r@[i]@[0] == 0u8
                &&& r@[i]@.subrange(1, 65) == data@.subrange(i * 64, i * 64 + 64)
            },
{
    let n = data.len();
    let mut r: Vec<Vec<u8>> = Vec::new();
    let mut off: usize = 0;
    proof {
        assert(0int * 64 == 0);
        vstd::arithmetic::div_mod::lemma_fundamental_div_mod(n as int, 64);
    }
    while off < n
        invariant
            n == data@.len(),
            n % 64 == 0,
            off == r@.len() * 64,
            off <= n,
            forall|i: int|
                0 <= i < r@.len() ==> {
                    &&& (#[trigger] r@[i])@.len() == 65
                    &&& r@[i]@[0] == 0u8
                    &&& r@[i]@.subrange(1, 65) == data@.subrange(i * 64, i * 64 + 64)
                },
        decreases n - off,
    {
        proof {
            vstd::arithmetic::div_mod::lemma_fundamental_div_mod(n as int, 64);
            vstd::arithmetic::div_mod::lemma_fundamental_div_mod(off as int, 64);
        }
        let report = prepend_byte_and_offset(data, off);
        r.push(report);
        off = off + 64;
    }
    proof {
        vstd::arithmetic::div_mod::lemma_fundamental_div_mod(n as int, 64);
    }
    r
}

} // verus!
