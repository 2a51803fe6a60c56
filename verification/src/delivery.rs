//! Transport-agnostic delivery rules: the hardware size limit, chunk
//! alignment, the splitting of a padded payload into write-sized chunks,
//! and the exactly-one-device discovery rule both transports share.

use vstd::prelude::*;

verus! {

/// The hardware safety limit: a padded payload beyond this many bytes
/// can permanently corrupt the badge's firmware, so it is rejected
/// before any byte reaches a device.
pub const MAX_PAYLOAD_LEN: usize = 8192;

/// A USB transfer carries the payload in blocks of this many bytes;
/// padded payloads are multiples of this block size.
pub const USB_CHUNK_LEN: usize = 64;

/// A BLE characteristic write carries this many bytes.
pub const BLE_CHUNK_LEN: usize = 16;

/// Why a payload may not be handed to a transport's writer.
#[derive(Debug, Clone, Copy, PartialEq, Eq, Structural)]
pub enum DeliveryError {
    /// The payload's length is not a multiple of the transport's chunk size.
    NotChunkAligned,
    /// The padded payload exceeds the 8192-byte hardware safety limit.
    TooLong,
}

/// Why discovery could not settle on one device.
#[derive(Debug, Clone, Copy, PartialEq, Eq, Structural)]
pub enum DiscoveryError {
    /// No matching device was found.
    NoDevice,
    /// More than one matching device was found; the caller must
    /// disambiguate out of band.
    MultipleDevices,
}

/// Check a padded payload's length before any device I/O: it must be a
/// multiple of the transport's chunk size and within the hardware limit.
pub fn validate_padded_len(len: usize, chunk: usize) -> (r: Result<(), DeliveryError>)
    requires
        chunk > 0,
    ensures
        r is Ok <==> (len % chunk == 0 && len <= MAX_PAYLOAD_LEN),
        r == Err::<(), DeliveryError>(DeliveryError::NotChunkAligned) <==> len % chunk != 0,
        r == Err::<(), DeliveryError>(DeliveryError::TooLong) <==> (len % chunk == 0 && len
            > MAX_PAYLOAD_LEN),
{
    if len % chunk != 0 {
        Err(DeliveryError::NotChunkAligned)
    } else if len > MAX_PAYLOAD_LEN {
        Err(DeliveryError::TooLong)
    } else {
        Ok(())
    }
}

/// The zero-or-multiple-is-fatal discovery rule: succeed exactly when
/// one candidate was found, and return that candidate.
pub fn select_single<T>(devices: Vec<T>) -> (r: Result<T, DiscoveryError>)
    ensures
        devices@.len() == 1 ==> (r matches Ok(d) && d == devices@[0]),
        devices@.len() == 0 ==> r == Err::<T, DiscoveryError>(DiscoveryError::NoDevice),
        devices@.len() > 1 ==> r == Err::<T, DiscoveryError>(DiscoveryError::MultipleDevices),
{
    let mut devices = devices;
    if devices.len() == 0 {
        return Err(DiscoveryError::NoDevice);
    }
    if devices.len() > 1 {
        return Err(DiscoveryError::MultipleDevices);
    }
    match devices.pop() {
        Some(d) => Ok(d),
        None => unreached(),
    }
}

/// Split a padded payload into its transport chunks: chunk `i` holds
/// bytes `i * chunk .. (i + 1) * chunk`, so writing the chunks in index
/// order writes the whole payload once, in ascending offset order.
pub fn split_chunks(data: &Vec<u8>, chunk: usize) -> (r: Vec<Vec<u8>>)
    requires
        chunk > 0,
        data@.len() as int % (chunk as int) == 0,
    ensures
        r@.len() == data@.len() as int / (chunk as int),
        forall|i: int|
            0 <= i < r@.len() ==> (#[trigger] r@[i])@ == data@.subrange(
                i * (chunk as int),
                (i + 1) * (chunk as int),
            ),
{
    let ghost c = chunk as int;
    let ghost m = data@.len() as int / c;
    proof {
        vstd::arithmetic::div_mod::lemma_fundamental_div_mod(data@.len() as int, c);
    }
    let n = data.len();
    let mut r: Vec<Vec<u8>> = Vec::new();
    let mut off: usize = 0;
    proof {
        assert(0int * c == 0) by (nonlinear_arith);
    }
    while off < n
        invariant
            chunk > 0,
            n == data@.len(),
            c == chunk as int,
            m == data@.len() as int / c,
            data@.len() == c * m,
            off == r@.len() * c,
            r@.len() <= m,
            forall|i: int|
                0 <= i < r@.len() ==> (#[trigger] r@[i])@ == data@.subrange(i * c, (i + 1) * c),
        decreases data@.len() - off,
    {
        proof {
            assert(r@.len() < m) by (nonlinear_arith)
                requires
                    off == r@.len() * c,
                    data@.len() == c * m,
                    off < data@.len(),
                    c > 0,
            ;
            assert((r@.len() + 1) * c == r@.len() * c + c) by (nonlinear_arith);
            assert((r@.len() + 1) * c <= m * c) by (nonlinear_arith)
                requires
                    r@.len() < m,
                    c > 0,
            ;
            assert(m * c == c * m) by (nonlinear_arith);
            assert(off + chunk <= data@.len());
        }
        let mut piece: Vec<u8> = Vec::new();
        let mut j: usize = 0;
        while j < chunk
            invariant
                j <= chunk,
                n == data@.len(),
                off + chunk <= n,
                piece@.len() == j,
                forall|t: int| 0 <= t < j ==> (#[trigger] piece@[t]) == data@[off + t],
            decreases chunk - j,
        {
            piece.push(data[off + j]);
            j = j + 1;
        }
        proof {
            assert((r@.len() + 1) * c == r@.len() * c + c) by (nonlinear_arith);
            assert(piece@ =~= data@.subrange(r@.len() * c, (r@.len() + 1) * c));
        }
        r.push(piece);
        off = off + chunk;
        proof {
            assert((r@.len() - 1) * c + c == r@.len() * c) by (nonlinear_arith);
        }
    }
    proof {
        assert(r@.len() == m) by (nonlinear_arith)
            requires
                off == r@.len() * c,
                off >= c * m,
                r@.len() <= m,
                c > 0,
        ;
    }
    r
}

} // verus!
