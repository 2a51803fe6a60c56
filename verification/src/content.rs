//! Message content helpers: the `_`/`X` bitstring format the
//! configuration file carries, drawn into a payload pixel by pixel, and
//! base64 bitmap decoding.

use crate::protocol::{
    column_mask, pixel_on, PayloadBuffer, SlotSpec, Style, State, MAX_COLUMN_GROUPS, MAX_MESSAGES,
};
use base64::Engine;
use vstd::prelude::*;

verus! {

/// What base64's standard-alphabet padded decoding returns for an input:
/// the decoded bytes, or nothing where the input is not valid base64.
pub uninterp spec fn base64_standard_decoding(s: Seq<u8>) -> Option<Seq<u8>>;

/// What base64's standard-alphabet unpadded decoding returns for an
/// input: the decoded bytes, or nothing where the input is not valid.
pub uninterp spec fn base64_standard_no_pad_decoding(s: Seq<u8>) -> Option<Seq<u8>>;

/// Relies on base64's `Engine::decode` with the `STANDARD` engine: the
/// result is a function of the input bytes alone.
#[verifier::external_body]
fn decode_standard(data: &Vec<u8>) -> (r: Option<Vec<u8>>)
    ensures
        r matches Some(v) ==> base64_standard_decoding(data@) == Some(v@),
        r is None ==> base64_standard_decoding(data@) is None,
{
    match base64::engine::general_purpose::STANDARD.decode(data.as_slice()) {
        Ok(v) => Some(v),
        Err(_) => None,
    }
}

/// Relies on base64's `Engine::decode` with the `STANDARD_NO_PAD`
/// engine: the result is a function of the input bytes alone.
#[verifier::external_body]
fn decode_standard_no_pad(data: &Vec<u8>) -> (r: Option<Vec<u8>>)
    ensures
        r matches Some(v) ==> base64_standard_no_pad_decoding(data@) == Some(v@),
        r is None ==> base64_standard_no_pad_decoding(data@) is None,
{
    match base64::engine::general_purpose::STANDARD_NO_PAD.decode(data.as_slice()) {
        Ok(v) => Some(v),
        Err(_) => None,
    }
}

/// Decode a base64 bitmap as the configuration file carries it: with the
/// standard alphabet, padded exactly when the text ends in `=`.
pub fn decode_bitmap_base64(data: &Vec<u8>) -> (r: Option<Vec<u8>>)
    ensures
        ({
            let dec = if data@.len() > 0 && data@.last() == 61 {
                base64_standard_decoding(data@)
            } else {
                base64_standard_no_pad_decoding(data@)
            };
            match r {
                Some(v) => dec == Some(v@),
                None => dec is None,
            }
        }),
{
    let n = data.len();
    if n > 0 && data[n - 1] == 61 {
        decode_standard(data)
    } else {
        decode_standard_no_pad(data)
    }
}

/// Why a bitstring could not become a message.
#[derive(Debug, Clone, Copy, PartialEq, Eq, Structural)]
pub enum ContentError {
    /// A bitstring must have exactly 11 lines, one per pixel row.
    WrongLineCount,
    /// Every line of a bitstring must have the same length.
    UnequalLineLength,
    /// A bitstring holds only `_` (off) and `X` (on).
    InvalidCharacter,
    /// The width would not fit the header's 16-bit group count.
    TooWide,
    /// The payload already holds the largest number of messages.
    TooManyMessages,
}

/// A bitstring's shape is right: 11 lines, all of one width.
pub open spec fn bitstring_shape_ok(lines: Seq<Seq<u8>>) -> bool {
    &&& lines.len() == 11
    &&& forall|y: int| 0 <= y < lines.len() ==> (#[trigger] lines[y]).len() == lines[0].len()
}

/// A bitstring holds only the bytes `_` (off) and `X` (on).
pub open spec fn bitstring_chars_ok(lines: Seq<Seq<u8>>) -> bool {
    forall|y: int, x: int|
        0 <= y < lines.len() && 0 <= x < lines[y].len() ==> ((#[trigger] lines[y][x]) == 88
            || lines[y][x] == 95)
}

proof fn lemma_column_in_group(x: int, groups: int)
    requires
        0 <= x < groups * 8,
    ensures
        0 <= x / 8 < groups,
        0 <= x % 8 < 8,
        0 <= (x / 8) * 11 < groups * 11,
{
    assert(x / 8 < groups && (x / 8) * 11 < groups * 11) by (nonlinear_arith)
        requires
            0 <= x < groups * 8,
    ;
}

proof fn lemma_byte_index_inj(g1: int, y1: int, g2: int, y2: int)
    requires
        0 <= y1 < 11,
        0 <= y2 < 11,
    ensures
        (g1 * 11 + y1 == g2 * 11 + y2) <==> (g1 == g2 && y1 == y2),
{
    assert((g1 * 11 + y1 == g2 * 11 + y2) <==> (g1 == g2 && y1 == y2)) by (nonlinear_arith)
        requires
            0 <= y1 < 11,
            0 <= y2 < 11,
    ;
}

proof fn lemma_same_column(x1: int, x2: int)
    requires
        x1 >= 0,
        x2 >= 0,
        x1 / 8 == x2 / 8,
        x1 % 8 == x2 % 8,
    ensures
        x1 == x2,
{
    vstd::arithmetic::div_mod::lemma_fundamental_div_mod(x1, 8);
    vstd::arithmetic::div_mod::lemma_fundamental_div_mod(x2, 8);
}

proof fn lemma_mask_or(b: u8, k1: u8, k2: u8)
    requires
        k1 < 8,
        k2 < 8,
    ensures
        ((b | (0x80u8 >> k1)) & (0x80u8 >> k2) != 0) <==> (k1 == k2 || (b & (0x80u8 >> k2) != 0)),
{
    assert(((b | (0x80u8 >> k1)) & (0x80u8 >> k2) != 0) <==> (k1 == k2 || (b & (0x80u8 >> k2)
        != 0))) by (bit_vector)
        requires
            k1 < 8,
            k2 < 8,
    ;
}

proof fn lemma_mask_zero(k: u8)
    requires
        k < 8,
    ensures
        0u8 & (0x80u8 >> k) == 0,
{
    assert(0u8 & (0x80u8 >> k) == 0) by (bit_vector);
}

/// Append one message drawn from a text bitstring: 11 lines of `_` and
/// `X` bytes, one line per pixel row, all of one width.  The message's
/// group count is the width rounded up to whole 8-column groups, and
/// exactly the `X` positions are on.  On any error the payload is left
/// unchanged.
pub fn add_bitstring_message(
    payload: &mut PayloadBuffer,
    style: Style,
    lines: &Vec<Vec<u8>>,
) -> (r: Result<(), ContentError>)
    requires
        old(payload).wf(),
    ensures
        final(payload).wf(),
        ({
            let ls = lines.deep_view();
            let width = if ls.len() > 0 { ls[0].len() as int } else { 0 };
            let groups = (width + 7) / 8;
            match r {
                Ok(_) => {
                    &&& bitstring_shape_ok(ls)
                    &&& bitstring_chars_ok(ls)
                    &&& groups <= MAX_COLUMN_GROUPS
                    &&& old(payload).slots().len() < MAX_MESSAGES
                    &&& final(payload).slots() == old(payload).slots().push(
                        SlotSpec { style, count: groups as u16 },
                    )
                    &&& final(payload)@.len() == old(payload)@.len() + groups * 11
                    &&& final(payload)@[5] == old(payload)@[5]
                    &&& (forall|j: int|
                        38 <= j < 44 ==> (#[trigger] final(payload)@[j]) == old(payload)@[j])
                    &&& (forall|j: int|
                        64 <= j < old(payload)@.len()
                            ==> (#[trigger] final(payload)@[j]) == old(payload)@[j])
                    &&& (forall|x: int, y: int|
                        0 <= x < groups * 8 && 0 <= y < 11 ==> ((#[trigger] pixel_on(
                            final(payload)@.subrange(
                                old(payload)@.len() as int,
                                old(payload)@.len() + groups * 11,
                            ),
                            x,
                            y,
                        )) <==> (x < width && ls[y][x] == 88)))
                },
                Err(e) => {
                    &&& *final(payload) == *old(payload)
                    &&& (e == ContentError::WrongLineCount <==> ls.len() != 11)
                    &&& (e == ContentError::UnequalLineLength <==> (ls.len() == 11
                        && !bitstring_shape_ok(ls)))
                    &&& (e == ContentError::InvalidCharacter <==> (bitstring_shape_ok(ls)
                        && !bitstring_chars_ok(ls)))
                    &&& (e == ContentError::TooWide <==> (bitstring_shape_ok(ls)
                        && bitstring_chars_ok(ls) && groups > MAX_COLUMN_GROUPS))
                    &&& (e == ContentError::TooManyMessages <==> (bitstring_shape_ok(ls)
                        && bitstring_chars_ok(ls) && groups <= MAX_COLUMN_GROUPS && old(
                        payload,
                    ).slots().len() >= MAX_MESSAGES))
                },
            }
        }),
{
    let ghost ls = lines.deep_view();
    proof {
        assert(ls.len() == lines@.len());
        assert(forall|y: int| 0 <= y < ls.len() ==> (#[trigger] ls[y]) == lines@[y]@);
    }
    if lines.len() != 11 {
        return Err(ContentError::WrongLineCount);
    }
    let width = lines[0].len();
    let mut y: usize = 1;
    while y < 11
        invariant
            1 <= y <= 11,
            *payload == *old(payload),
            old(payload).wf(),
            lines@.len() == 11,
            ls == lines.deep_view(),
            ls.len() == 11,
            forall|t: int| 0 <= t < ls.len() ==> (#[trigger] ls[t]) == lines@[t]@,
            width == ls[0].len(),
            forall|t: int| 0 <= t < y ==> (#[trigger] ls[t]).len() == width,
        decreases 11 - y,
    {
        if lines[y].len() != width {
            assert(ls[y as int] == lines@[y as int]@);
            assert(ls[y as int].len() != ls[0].len());
            assert(!bitstring_shape_ok(ls));
            return Err(ContentError::UnequalLineLength);
        }
        y = y + 1;
    }
    assert(bitstring_shape_ok(ls));

    let mut y: usize = 0;
    while y < 11
        invariant
            y <= 11,
            *payload == *old(payload),
            old(payload).wf(),
            lines@.len() == 11,
            ls == lines.deep_view(),
            ls.len() == 11,
            forall|t: int| 0 <= t < ls.len() ==> (#[trigger] ls[t]) == lines@[t]@,
            width == ls[0].len(),
            bitstring_shape_ok(ls),
            forall|t: int, x: int|
                0 <= t < y && 0 <= x < width ==> ((#[trigger] ls[t][x]) == 88 || ls[t][x] == 95),
        decreases 11 - y,
    {
        let mut x: usize = 0;
        while x < width
            invariant
                y < 11,
                x <= width,
                *payload == *old(payload),
                old(payload).wf(),
                lines@.len() == 11,
                ls == lines.deep_view(),
                ls.len() == 11,
                forall|t: int| 0 <= t < ls.len() ==> (#[trigger] ls[t]) == lines@[t]@,
                width == ls[0].len(),
                bitstring_shape_ok(ls),
                forall|t: int, x2: int|
                    0 <= t < y && 0 <= x2 < width ==> ((#[trigger] ls[t][x2]) == 88 || ls[t][x2]
                        == 95),
                forall|x2: int| 0 <= x2 < x ==> ((#[trigger] ls[y as int][x2]) == 88
                    || ls[y as int][x2] == 95),
            decreases width - x,
        {
            assert(ls[y as int] == lines@[y as int]@);
            assert(ls[y as int].len() == width);
            let c = lines[y][x];
            assert(c == ls[y as int][x as int]);
            if c != 88 && c != 95 {
                assert(!bitstring_chars_ok(ls));
                return Err(ContentError::InvalidCharacter);
            }
            x = x + 1;
        }
        y = y + 1;
    }
    assert(bitstring_chars_ok(ls));

    if width > MAX_COLUMN_GROUPS * 8 {
        proof {
            assert((width + 7) / 8 > MAX_COLUMN_GROUPS) by (nonlinear_arith)
                requires
                    width > MAX_COLUMN_GROUPS * 8,
            ;
        }
        return Err(ContentError::TooWide);
    }
    let groups = (width + 7) / 8;
    proof {
        assert(groups <= MAX_COLUMN_GROUPS && width <= groups * 8 && groups * 8 < width + 8)
            by (nonlinear_arith)
            requires
                width <= MAX_COLUMN_GROUPS * 8,
                groups == (width + 7) / 8,
        ;
    }
    if payload.num_messages() >= MAX_MESSAGES {
        return Err(ContentError::TooManyMessages);
    }

    let ghost base = old(payload)@.len() as int;
    let msg = payload.add_message(style, groups);
    let ghost pushed = old(payload).slots().push(SlotSpec { style, count: groups as u16 });
    proof {
        assert forall|x: int, yy: int|
            0 <= x < groups * 8 && 0 <= yy < 11 implies !(#[trigger] pixel_on(
            payload@.subrange(base, base + groups * 11),
            x,
            yy,
        )) by {
            lemma_column_in_group(x, groups as int);
            lemma_mask_zero((x % 8) as u8);
            assert(payload@[base + ((x / 8) * 11 + yy)] == 0u8);
        }
    }

    let mut yy: usize = 0;
    while yy < 11
        invariant
            yy <= 11,
            lines@.len() == 11,
            ls == lines.deep_view(),
            ls.len() == 11,
            forall|t: int| 0 <= t < ls.len() ==> (#[trigger] ls[t]) == lines@[t]@,
            width == ls[0].len(),
            bitstring_shape_ok(ls),
            bitstring_chars_ok(ls),
            groups == (width + 7) / 8,
            groups <= MAX_COLUMN_GROUPS,
            width <= groups * 8,
            base == old(payload)@.len(),
            old(payload).wf(),
            old(payload).slots().len() < MAX_MESSAGES,
            payload.wf(),
            payload.slots() == pushed,
            pushed == old(payload).slots().push(SlotSpec { style, count: groups as u16 }),
            payload@.len() == base + groups * 11,
            msg.wf(),
            msg.spec_start() == base,
            msg.spec_groups() == groups,
            payload@[5] == old(payload)@[5],
            forall|j: int| 38 <= j < 44 ==> (#[trigger] payload@[j]) == old(payload)@[j],
            forall|j: int| 64 <= j < base ==> (#[trigger] payload@[j]) == old(payload)@[j],
            forall|x: int, y2: int|
                0 <= x < groups * 8 && 0 <= y2 < 11 ==> ((#[trigger] pixel_on(
                    payload@.subrange(base, base + groups * 11),
                    x,
                    y2,
                )) <==> (y2 < yy && x < width && ls[y2][x] == 88)),
        decreases 11 - yy,
    {
        let mut xx: usize = 0;
        while xx < width
            invariant
                yy < 11,
                xx <= width,
                lines@.len() == 11,
                ls == lines.deep_view(),
                ls.len() == 11,
                forall|t: int| 0 <= t < ls.len() ==> (#[trigger] ls[t]) == lines@[t]@,
                width == ls[0].len(),
                bitstring_shape_ok(ls),
                bitstring_chars_ok(ls),
                groups == (width + 7) / 8,
                groups <= MAX_COLUMN_GROUPS,
                width <= groups * 8,
                base == old(payload)@.len(),
                old(payload).wf(),
                old(payload).slots().len() < MAX_MESSAGES,
                payload.wf(),
                payload.slots() == pushed,
                pushed == old(payload).slots().push(SlotSpec { style, count: groups as u16 }),
                payload@.len() == base + groups * 11,
                msg.wf(),
                msg.spec_start() == base,
                msg.spec_groups() == groups,
                payload@[5] == old(payload)@[5],
                forall|j: int| 38 <= j < 44 ==> (#[trigger] payload@[j]) == old(payload)@[j],
                forall|j: int| 64 <= j < base ==> (#[trigger] payload@[j]) == old(payload)@[j],
                forall|x: int, y2: int|
                    0 <= x < groups * 8 && 0 <= y2 < 11 ==> ((#[trigger] pixel_on(
                        payload@.subrange(base, base + groups * 11),
                        x,
                        y2,
                    )) <==> ((y2 < yy && x < width && ls[y2][x] == 88) || (y2 == yy && x < xx
                        && ls[y2][x] == 88))),
            decreases width - xx,
        {
            let ghost region0 = payload@.subrange(base, base + groups * 11);
            assert(ls[yy as int] == lines@[yy as int]@);
            assert(ls[yy as int].len() == width);
            let c = lines[yy][xx];
            assert(c == ls[yy as int][xx as int]);
            if c == 88 {
                proof {
                    lemma_column_in_group(xx as int, groups as int);
                }
                let set_result = msg.set(payload, (xx, yy), State::On);
                proof {
                    assert(set_result is Some);
                    let idx = base + (xx as int / 8) * 11 + yy;
                    let region = payload@.subrange(base, base + groups * 11);
                    assert(region =~= region0.update(
                        (xx as int / 8) * 11 + yy,
                        region0[(xx as int / 8) * 11 + yy] | column_mask(xx as int),
                    ));
                    assert forall|x: int, y2: int|
                        0 <= x < groups * 8 && 0 <= y2 < 11 implies (pixel_on(region, x, y2) <==> (
                    (y2 < yy && x < width && ls[y2][x] == 88) || (y2 == yy && x < xx + 1
                        && ls[y2][x] == 88))) by {
                        let prev = pixel_on(region0, x, y2);
                        lemma_column_in_group(x, groups as int);
                        lemma_byte_index_inj(x / 8, y2, xx as int / 8, yy as int);
                        if (x / 8) * 11 + y2 == (xx as int / 8) * 11 + yy {
                            lemma_mask_or(
                                region0[(x / 8) * 11 + y2],
                                (xx as int % 8) as u8,
                                (x % 8) as u8,
                            );
                            if x % 8 == xx as int % 8 {
                                lemma_same_column(x, xx as int);
                            }
                        }
                    }
                }
            } else {
                proof {
                    assert(c == 95);
                    assert forall|x: int, y2: int|
                        0 <= x < groups * 8 && 0 <= y2 < 11 implies (pixel_on(region0, x, y2) <==> (
                    (y2 < yy && x < width && ls[y2][x] == 88) || (y2 == yy && x < xx + 1
                        && ls[y2][x] == 88))) by {
                        let prev = pixel_on(region0, x, y2);
                        if y2 == yy && x == xx {
                            assert(ls[y2][x] == 95);
                        }
                    }
                }
            }
            xx = xx + 1;
        }
        proof {
            assert forall|x: int, y2: int|
                0 <= x < groups * 8 && 0 <= y2 < 11 implies ((#[trigger] pixel_on(
                payload@.subrange(base, base + groups * 11),
                x,
                y2,
            )) <==> (y2 < yy + 1 && x < width && ls[y2][x] == 88)) by {
                let prev = pixel_on(payload@.subrange(base, base + groups * 11), x, y2);
            }
        }
        yy = yy + 1;
    }
    Ok(())
}

} // verus!
