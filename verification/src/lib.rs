//! Drive a low-resolution scrolling LED badge: build the fixed-layout
//! binary payload — up to 8 independently styled, column-addressed pixel
//! messages behind one 64-byte header — and prepare it for delivery over
//! the badge's USB-HID or BLE transport.
//!
//! - [`protocol`]: styles, the header's byte layout, the payload buffer
//!   and its pixel-addressable message regions.
//! - [`content`]: messages drawn from text bitstrings, and base64 bitmap
//!   decoding.
//! - [`delivery`]: the transport-agnostic rules — block padding, the
//!   8192-byte hardware safety limit, chunking, and exactly-one-device
//!   discovery.
//! - [`usb_hid`]: the badge's USB identity and the report-ID framing.
//! - [`ble`]: the badge's BLE identity and the chunked write session.

pub mod ble;
pub mod content;
pub mod delivery;
pub mod protocol;
pub mod usb_hid;
