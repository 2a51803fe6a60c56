//! Payload encoding: message styles and the fixed-layout binary buffer.
//!
//! A payload is one fixed 64-byte header followed by up to 8 message
//! regions.  Each message is a pixel grid 11 rows tall whose width is a
//! multiple of 8 columns; one 8-column-wide group of one row is packed
//! into a single byte, most significant bit first.

use vstd::prelude::*;

verus! {

/// Total size in bytes of the fixed payload header.
pub const HEADER_LEN: usize = 64;

/// The most messages one payload can carry.
pub const MAX_MESSAGES: usize = 8;

/// Every message is this many pixel rows tall, so every 8-column group
/// of a message occupies this many bytes.
pub const MESSAGE_HEIGHT: usize = 11;

/// The widest message, in 8-column groups, whose width still fits the
/// header's 16-bit length field.
pub const MAX_COLUMN_GROUPS: usize = 65535;

/// Animation update speed, encoded as the byte codes `0..=7`.
#[derive(Debug, Clone, Copy, PartialEq, Eq, Structural)]
pub enum Speed {
    /// 1.2 FPS
    Fps1_2,
    /// 1.3 FPS
    Fps1_3,
    /// 2 FPS
    Fps2,
    /// 2.4 FPS
    Fps2_4,
    /// 2.8 FPS
    Fps2_8,
    /// 4.5 FPS
    Fps4_5,
    /// 7.5 FPS
    Fps7_5,
    /// 15 FPS
    Fps15,
}

/// The byte code a speed is encoded as.
pub open spec fn speed_code(s: Speed) -> u8 {
    match s {
        Speed::Fps1_2 => 0,
        Speed::Fps1_3 => 1,
        Speed::Fps2 => 2,
        Speed::Fps2_4 => 3,
        Speed::Fps2_8 => 4,
        Speed::Fps4_5 => 5,
        Speed::Fps7_5 => 6,
        Speed::Fps15 => 7,
    }
}

/// The speed a byte decodes to; bytes above 7 are invalid.
pub open spec fn speed_of_code(b: u8) -> Option<Speed> {
    if b == 0 {
        Some(Speed::Fps1_2)
    } else if b == 1 {
        Some(Speed::Fps1_3)
    } else if b == 2 {
        Some(Speed::Fps2)
    } else if b == 3 {
        Some(Speed::Fps2_4)
    } else if b == 4 {
        Some(Speed::Fps2_8)
    } else if b == 5 {
        Some(Speed::Fps4_5)
    } else if b == 6 {
        Some(Speed::Fps7_5)
    } else if b == 7 {
        Some(Speed::Fps15)
    } else {
        None
    }
}

impl Speed {
    /// Encode this speed as its single-byte code.
    pub fn to_byte(self) -> (r: u8)
        ensures
            r == speed_code(self),
    {
        match self {
            Speed::Fps1_2 => 0,
            Speed::Fps1_3 => 1,
            Speed::Fps2 => 2,
            Speed::Fps2_4 => 3,
            Speed::Fps2_8 => 4,
            Speed::Fps4_5 => 5,
            Speed::Fps7_5 => 6,
            Speed::Fps15 => 7,
        }
    }

    /// Decode a byte code; every byte above 7 is invalid.
    pub fn from_byte(value: u8) -> (r: Option<Speed>)
        ensures
            r == speed_of_code(value),
    {
        match value {
            0 => Some(Speed::Fps1_2),
            1 => Some(Speed::Fps1_3),
            2 => Some(Speed::Fps2),
            3 => Some(Speed::Fps2_4),
            4 => Some(Speed::Fps2_8),
            5 => Some(Speed::Fps4_5),
            6 => Some(Speed::Fps7_5),
            7 => Some(Speed::Fps15),
            _ => None,
        }
    }
}

impl Default for Speed {
    /// The default speed is the middle one, 2.8 FPS.
    fn default() -> (r: Self)
        ensures
            r == Speed::Fps2_8,
    {
        Speed::Fps2_8
    }
}

/// Law: every speed round-trips through its byte code, and exactly the
/// bytes `0..=7` decode to a speed, to the one whose code they are.
pub proof fn lemma_speed_round_trip()
    ensures
        forall|s: Speed| speed_of_code(speed_code(s)) == Some(s),
        forall|b: u8| speed_of_code(b) is Some <==> b < 8,
        forall|b: u8| b < 8 ==> speed_code(#[trigger] speed_of_code(b)->Some_0) == b,
{
}

/// Message display mode, packed as the byte codes `0..=8`.
#[derive(Debug, Clone, Copy, PartialEq, Eq, Structural)]
pub enum Mode {
    /// Scroll through the message from left to right
    Left,
    /// Scroll through the message from right to left
    Right,
    /// Enter from the bottom, move up
    Up,
    /// Enter from the top, move down
    Down,
    /// Center the text, no animation
    Center,
    /// Fast mode for animations: a new screen every 48 pixels
    Fast,
    /// Drop rows of pixels from the top
    Drop,
    /// Open a curtain and reveal the message
    Curtain,
    /// A laser reveals the message from left to right
    Laser,
}

/// The nibble code a mode is packed as.
pub open spec fn mode_code(m: Mode) -> u8 {
    match m {
        Mode::Left => 0,
        Mode::Right => 1,
        Mode::Up => 2,
        Mode::Down => 3,
        Mode::Center => 4,
        Mode::Fast => 5,
        Mode::Drop => 6,
        Mode::Curtain => 7,
        Mode::Laser => 8,
    }
}

impl Mode {
    /// Encode this mode as its nibble code.
    pub fn to_byte(self) -> (r: u8)
        ensures
            r == mode_code(self),
    {
        match self {
            Mode::Left => 0,
            Mode::Right => 1,
            Mode::Up => 2,
            Mode::Down => 3,
            Mode::Center => 4,
            Mode::Fast => 5,
            Mode::Drop => 6,
            Mode::Curtain => 7,
            Mode::Laser => 8,
        }
    }
}

impl Default for Mode {
    /// The default mode scrolls from left to right.
    fn default() -> (r: Self)
        ensures
            r == Mode::Left,
    {
        Mode::Left
    }
}

/// Display brightness, encoded as the byte codes `0x00`, `0x10`, `0x20`, `0x30`.
#[derive(Debug, Clone, Copy, PartialEq, Eq, Structural)]
pub enum Brightness {
    Full,
    ThreeQuarters,
    Half,
    OneQuarter,
}

/// The byte code a brightness is encoded as.
pub open spec fn brightness_code(b: Brightness) -> u8 {
    match b {
        Brightness::Full => 0x00,
        Brightness::ThreeQuarters => 0x10,
        Brightness::Half => 0x20,
        Brightness::OneQuarter => 0x30,
    }
}

/// The brightness a byte decodes to; every other byte is invalid.
pub open spec fn brightness_of_code(b: u8) -> Option<Brightness> {
    if b == 0x00 {
        Some(Brightness::Full)
    } else if b == 0x10 {
        Some(Brightness::ThreeQuarters)
    } else if b == 0x20 {
        Some(Brightness::Half)
    } else if b == 0x30 {
        Some(Brightness::OneQuarter)
    } else {
        None
    }
}

impl Brightness {
    /// Encode this brightness as its single-byte code.
    pub fn to_byte(self) -> (r: u8)
        ensures
            r == brightness_code(self),
    {
        match self {
            Brightness::Full => 0x00,
            Brightness::ThreeQuarters => 0x10,
            Brightness::Half => 0x20,
            Brightness::OneQuarter => 0x30,
        }
    }

    /// Decode a byte code; only the four codes `0x00`, `0x10`, `0x20`,
    /// `0x30` are valid.
    pub fn from_byte(value: u8) -> (r: Option<Brightness>)
        ensures
            r == brightness_of_code(value),
    {
        match value {
            0x00 => Some(Brightness::Full),
            0x10 => Some(Brightness::ThreeQuarters),
            0x20 => Some(Brightness::Half),
            0x30 => Some(Brightness::OneQuarter),
            _ => None,
        }
    }
}

impl Default for Brightness {
    /// The default brightness is the full one.
    fn default() -> (r: Self)
        ensures
            r == Brightness::Full,
    {
        Brightness::Full
    }
}

/// Law: every brightness round-trips through its byte code, and exactly
/// the four codes decode, each to the brightness whose code it is.
pub proof fn lemma_brightness_round_trip()
    ensures
        forall|v: Brightness| brightness_of_code(brightness_code(v)) == Some(v),
        forall|b: u8| brightness_of_code(b) is Some <==> (b == 0x00 || b == 0x10 || b == 0x20 || b == 0x30),
        forall|b: u8| brightness_of_code(b) is Some
            ==> brightness_code(#[trigger] brightness_of_code(b)->Some_0) == b,
{
}

/// State of a pixel.
#[derive(Debug, Clone, Copy, PartialEq, Eq, Structural)]
pub enum State {
    Off,
    On,
}

impl Default for State {
    /// A pixel is off by default.
    fn default() -> (r: Self)
        ensures
            r == State::Off,
    {
        State::Off
    }
}

impl From<bool> for State {
    /// `true` is an on pixel.
    fn from(value: bool) -> (r: Self)
        ensures
            r == (if value {
                State::On
            } else {
                State::Off
            }),
    {
        if value {
            State::On
        } else {
            State::Off
        }
    }
}

impl vstd::std_specs::convert::FromSpecImpl<bool> for State {
    open spec fn obeys_from_spec() -> bool {
        true
    }

    open spec fn from_spec(value: bool) -> Self {
        if value {
            State::On
        } else {
            State::Off
        }
    }
}

/// Message style configuration: blink and border flags plus the animation
/// speed and mode, chosen at insertion time.
#[derive(Debug, Clone, Copy, PartialEq, Eq, Structural)]
pub struct Style {
    blink: bool,
    border: bool,
    speed: Speed,
    mode: Mode,
}

impl Style {
    /// Whether the message blinks.
    pub closed spec fn spec_blink(self) -> bool {
        self.blink
    }

    /// Whether a dotted border is shown around the message.
    pub closed spec fn spec_border(self) -> bool {
        self.border
    }

    /// The animation speed.
    pub closed spec fn spec_speed(self) -> Speed {
        self.speed
    }

    /// The animation mode.
    pub closed spec fn spec_mode(self) -> Mode {
        self.mode
    }

    /// Enable blink mode: the message will blink.
    pub fn blink(self) -> (r: Self)
        ensures
            r.spec_blink(),
            r.spec_border() == self.spec_border(),
            r.spec_speed() == self.spec_speed(),
            r.spec_mode() == self.spec_mode(),
    {
        Style { blink: true, ..self }
    }

    /// Show a dotted border around the display.
    pub fn border(self) -> (r: Self)
        ensures
            r.spec_blink() == self.spec_blink(),
            r.spec_border(),
            r.spec_speed() == self.spec_speed(),
            r.spec_mode() == self.spec_mode(),
    {
        Style { border: true, ..self }
    }

    /// Set the update speed of the animation.
    pub fn speed(self, speed: Speed) -> (r: Self)
        ensures
            r.spec_blink() == self.spec_blink(),
            r.spec_border() == self.spec_border(),
            r.spec_speed() == speed,
            r.spec_mode() == self.spec_mode(),
    {
        Style { speed, ..self }
    }

    /// Set the display animation.
    pub fn mode(self, mode: Mode) -> (r: Self)
        ensures
            r.spec_blink() == self.spec_blink(),
            r.spec_border() == self.spec_border(),
            r.spec_speed() == self.spec_speed(),
            r.spec_mode() == mode,
    {
        Style { mode, ..self }
    }
}

impl Default for Style {
    /// The default style: no blink, no border, mid speed, left scroll.
    fn default() -> (r: Self)
        ensures
            !r.spec_blink(),
            !r.spec_border(),
            r.spec_speed() == Speed::Fps2_8,
            r.spec_mode() == Mode::Left,
    {
        Style { blink: false, border: false, speed: Speed::Fps2_8, mode: Mode::Left }
    }
}

/// The byte that packs a style's speed (high nibble) and mode (low nibble).
pub open spec fn packed_style(s: Style) -> int {
    speed_code(s.spec_speed()) * 16 + mode_code(s.spec_mode())
}

/// A payload-creation timestamp: two-digit year and natural calendar
/// values, each stored as one raw binary byte.
#[derive(Debug, Clone, Copy, PartialEq, Eq, Structural)]
pub struct Timestamp {
    pub year: u8,
    pub month: u8,
    pub day: u8,
    pub hour: u8,
    pub minute: u8,
    pub second: u8,
}

#[verifier::external_type_specification]
#[verifier::external_body]
pub struct ExOffsetDateTime(time::OffsetDateTime);

#[verifier::external_type_specification]
#[verifier::external_body]
pub struct ExMonth(time::Month);

/// Relies on `time::OffsetDateTime::now_utc` for the current instant;
/// nothing can be promised of a clock reading.
pub assume_specification[ time::OffsetDateTime::now_utc ]() -> time::OffsetDateTime;

/// Relies on `time::OffsetDateTime::year`: without the crate's
/// `large-dates` feature every date's year lies within `-9999..=9999`.
pub assume_specification[ time::OffsetDateTime::year ](t: time::OffsetDateTime) -> (r: i32)
    ensures
        -9999 <= r <= 9999,
;

/// Relies on `time::OffsetDateTime::month`; the month's number is read
/// through `month_number`.
pub assume_specification[ time::OffsetDateTime::month ](t: time::OffsetDateTime) -> time::Month;

/// Relies on `time::OffsetDateTime::day`: documented to lie in `1..=31`.
pub assume_specification[ time::OffsetDateTime::day ](t: time::OffsetDateTime) -> (r: u8)
    ensures
        1 <= r <= 31,
;

/// Relies on `time::OffsetDateTime::hour`: documented to lie in `0..24`.
pub assume_specification[ time::OffsetDateTime::hour ](t: time::OffsetDateTime) -> (r: u8)
    ensures
        r < 24,
;

/// Relies on `time::OffsetDateTime::minute`: documented to lie in `0..60`.
pub assume_specification[ time::OffsetDateTime::minute ](t: time::OffsetDateTime) -> (r: u8)
    ensures
        r < 60,
;

/// Relies on `time::OffsetDateTime::second`: documented to lie in `0..60`.
pub assume_specification[ time::OffsetDateTime::second ](t: time::OffsetDateTime) -> (r: u8)
    ensures
        r < 60,
;

/// Relies on `time::Month`'s `u8` representation: its twelve variants
/// carry the numbers `1..=12`, January first.
#[verifier::external_body]
fn month_number(m: time::Month) -> (r: u8)
    ensures
        1 <= r <= 12,
{
    m as u8
}

impl Timestamp {
    /// Build a timestamp from civil time; the year is reduced to its last
    /// two digits, every other field is stored as given.
    pub fn from_civil(year: i32, month: u8, day: u8, hour: u8, minute: u8, second: u8) -> (r:
        Timestamp)
        requires
            -9999 <= year <= 9999,
        ensures
            r.year as int == (year as int) % 100,
            r.month == month,
            r.day == day,
            r.hour == hour,
            r.minute == minute,
            r.second == second,
    {
        let shifted: u32 = (year + 10000) as u32;
        let y: u8 = (shifted % 100) as u8;
        proof {
            vstd::arithmetic::div_mod::lemma_mod_multiples_vanish(100, year as int, 100);
        }
        Timestamp { year: y, month, day, hour, minute, second }
    }

    /// The current time in UTC, reduced to the header's six byte fields.
    /// The fields are a clock reading, so nothing more than these ranges
    /// can be promised; they hold of every reading.
    pub fn now() -> (r: Timestamp)
        ensures
            r.year < 100,
            1 <= r.month <= 12,
            1 <= r.day <= 31,
            r.hour < 24,
            r.minute < 60,
            r.second < 60,
    {
        let t = time::OffsetDateTime::now_utc();
        let month = month_number(t.month());
        Timestamp::from_civil(t.year(), month, t.day(), t.hour(), t.minute(), t.second())
    }
}

impl Default for Timestamp {
    /// An all-zero timestamp, for payloads whose creation time does not
    /// matter.
    fn default() -> (r: Self)
        ensures
            r == (Timestamp { year: 0, month: 0, day: 0, hour: 0, minute: 0, second: 0 }),
    {
        Timestamp { year: 0, month: 0, day: 0, hour: 0, minute: 0, second: 0 }
    }
}

/// The description of one message slot: its style, and its width counted
/// in 8-column groups.
#[derive(Debug, Clone, Copy, PartialEq, Eq, Structural)]
pub struct SlotSpec {
    pub style: Style,
    pub count: u16,
}

/// Total size in bytes of the message regions of the given slots.
pub open spec fn slots_data_len(s: Seq<SlotSpec>) -> int
    decreases s.len(),
{
    if s.len() == 0 {
        0
    } else {
        slots_data_len(s.drop_last()) + s.last().count * 11
    }
}

/// The message regions' total size is nonnegative and, with every count
/// within the length field's range, at most `s.len() * (65535 * 11)`.
pub proof fn lemma_slots_data_len_bound(s: Seq<SlotSpec>)
    ensures
        0 <= slots_data_len(s) <= s.len() * (65535 * 11),
    decreases s.len(),
{
    if s.len() > 0 {
        lemma_slots_data_len_bound(s.drop_last());
        assert(s.last().count * 11 <= 65535 * 11);
        assert((s.len() - 1) * (65535 * 11) + 65535 * 11 == s.len() * (65535 * 11))
            by (nonlinear_arith);
    }
}

/// Offset of slot `i`'s message region within the payload bytes.
pub open spec fn slot_offset(s: Seq<SlotSpec>, i: int) -> int {
    HEADER_LEN + slots_data_len(s.subrange(0, i))
}

/// The header's blink bitmask: bit `i` is set exactly when slot `i` blinks.
pub open spec fn blink_mask(s: Seq<SlotSpec>) -> u8
    decreases s.len(),
{
    if s.len() == 0 {
        0u8
    } else {
        let rest = blink_mask(s.drop_last());
        if s.last().style.spec_blink() {
            rest | (1u8 << ((s.len() - 1) as u8))
        } else {
            rest
        }
    }
}

/// The header's border bitmask: bit `i` is set exactly when slot `i` has
/// a border.
pub open spec fn border_mask(s: Seq<SlotSpec>) -> u8
    decreases s.len(),
{
    if s.len() == 0 {
        0u8
    } else {
        let rest = border_mask(s.drop_last());
        if s.last().style.spec_border() {
            rest | (1u8 << ((s.len() - 1) as u8))
        } else {
            rest
        }
    }
}

/// The packed speed-and-mode byte for slot `i`, zero for unused slots.
pub open spec fn style_byte(s: Seq<SlotSpec>, i: int) -> int {
    if 0 <= i < s.len() {
        packed_style(s[i].style)
    } else {
        0
    }
}

/// Byte `k` of the header's big-endian 16-bit length fields: slot `k / 2`'s
/// group count, high byte first; zero for unused slots.
pub open spec fn length_byte(s: Seq<SlotSpec>, k: int) -> int {
    let i = k / 2;
    if 0 <= i < s.len() {
        if k % 2 == 0 {
            s[i].count as int / 256
        } else {
            s[i].count as int % 256
        }
    } else {
        0
    }
}

/// The 64 header bytes of a payload that holds no messages yet: the magic
/// constant, the timestamp, and zeroes everywhere else.
pub open spec fn empty_header(ts: Timestamp) -> Seq<u8> {
    Seq::new(64, |j: int|
        if j == 0 {
            0x77u8
        } else if j == 1 {
            0x61u8
        } else if j == 2 {
            0x6eu8
        } else if j == 3 {
            0x67u8
        } else if j == 38 {
            ts.year
        } else if j == 39 {
            ts.month
        } else if j == 40 {
            ts.day
        } else if j == 41 {
            ts.hour
        } else if j == 42 {
            ts.minute
        } else if j == 43 {
            ts.second
        } else {
            0u8
        })
}

/// Buffer to create a payload.
///
/// A payload consists of the fixed header followed by the message regions
/// of up to 8 messages, appended strictly in insertion order.
pub struct PayloadBuffer {
    data: Vec<u8>,
    num_messages: u8,
    slots: Ghost<Seq<SlotSpec>>,
}

impl View for PayloadBuffer {
    type V = Seq<u8>;

    closed spec fn view(&self) -> Seq<u8> {
        self.data@
    }
}

impl PayloadBuffer {
    /// The slots appended so far, in insertion order.
    pub closed spec fn slots(self) -> Seq<SlotSpec> {
        self.slots@
    }

    /// The recorded number of messages.
    pub closed spec fn spec_num_messages(self) -> int {
        self.num_messages as int
    }

    /// The timestamp stored in the header.
    pub closed spec fn timestamp(self) -> Timestamp {
        Timestamp {
            year: self.data@[38],
            month: self.data@[39],
            day: self.data@[40],
            hour: self.data@[41],
            minute: self.data@[42],
            second: self.data@[43],
        }
    }

    /// Well-formedness: the bytes are one fixed-layout header, whose
    /// per-slot fields reflect the appended slots exactly, followed by the
    /// slots' message regions.
    pub open spec fn wf(self) -> bool {
        let s = self.slots();
        let d = self@;
        &&& self.spec_num_messages() == s.len()
        &&& s.len() <= MAX_MESSAGES
        &&& d.len() == HEADER_LEN + slots_data_len(s)
        &&& d[0] == 0x77u8
        &&& d[1] == 0x61u8
        &&& d[2] == 0x6eu8
        &&& d[3] == 0x67u8
        &&& d[4] == 0u8
        &&& d[6] == blink_mask(s)
        &&& d[7] == border_mask(s)
        &&& forall|j: int| 8 <= j < 16 ==> (#[trigger] d[j]) == style_byte(s, j - 8)
        &&& forall|j: int| 16 <= j < 32 ==> (#[trigger] d[j]) == length_byte(s, j - 16)
        &&& forall|j: int| 32 <= j < 38 ==> (#[trigger] d[j]) == 0
        &&& forall|j: int| 44 <= j < 64 ==> (#[trigger] d[j]) == 0
    }

    /// Create a new empty buffer stamped with the given timestamp.
    pub fn with_timestamp(ts: Timestamp) -> (r: PayloadBuffer)
        ensures
            r.wf(),
            r.slots() == Seq::<SlotSpec>::empty(),
            r@ == empty_header(ts),
            r.timestamp() == ts,
    {
        let mut data = zero_vec(64);
        data[0] = 0x77;
        data[1] = 0x61;
        data[2] = 0x6e;
        data[3] = 0x67;
        data[38] = ts.year;
        data[39] = ts.month;
        data[40] = ts.day;
        data[41] = ts.hour;
        data[42] = ts.minute;
        data[43] = ts.second;
        proof {
            assert(data@ =~= empty_header(ts));
        }
        PayloadBuffer { data, num_messages: 0, slots: Ghost(Seq::empty()) }
    }

    /// Create a new empty buffer stamped with the current time.  The
    /// stamp is a clock reading, so its exact value cannot be promised;
    /// the stated calendar ranges hold of every reading.
    pub fn new() -> (r: PayloadBuffer)
        ensures
            r.wf(),
            r.slots() == Seq::<SlotSpec>::empty(),
            r@ == empty_header(r.timestamp()),
            r.timestamp().year < 100,
            1 <= r.timestamp().month <= 12,
            1 <= r.timestamp().day <= 31,
            r.timestamp().hour < 24,
            r.timestamp().minute < 60,
            r.timestamp().second < 60,
    {
        PayloadBuffer::with_timestamp(Timestamp::now())
    }

    /// Overwrite the single global brightness byte.
    pub fn set_brightness(&mut self, brightness: Brightness)
        requires
            old(self).wf(),
        ensures
            final(self).wf(),
            final(self).slots() == old(self).slots(),
            final(self)@ == old(self)@.update(5, brightness_code(brightness)),
    {
        proof {
            lemma_slots_data_len_bound(self.slots());
        }
        let b = brightness.to_byte();
        self.data[5] = b;
    }

    /// Return the current number of messages.
    pub fn num_messages(&mut self) -> (n: usize)
        ensures
            *final(self) == *old(self),
            n == old(self).spec_num_messages(),
            old(self).wf() ==> n == old(self).slots().len(),
    {
        self.num_messages as usize
    }

    /// The current payload as bytes (without padding).
    pub fn as_bytes(&self) -> (r: &[u8])
        ensures
            r@ == self@,
    {
        self.data.as_slice()
    }
}

impl Default for PayloadBuffer {
    /// A new empty buffer stamped with the current time, as `new` makes it.
    fn default() -> (r: Self)
        ensures
            r.wf(),
            r.slots() == Seq::<SlotSpec>::empty(),
            r@ == empty_header(r.timestamp()),
            r.timestamp().year < 100,
            1 <= r.timestamp().month <= 12,
            1 <= r.timestamp().day <= 31,
            r.timestamp().hour < 24,
            r.timestamp().minute < 60,
            r.timestamp().second < 60,
    {
        PayloadBuffer::new()
    }
}

/// The mask of the single bit within its byte that column `x` occupies:
/// the most significant bit is the lowest column index of the group.
pub open spec fn column_mask(x: int) -> u8 {
    0x80u8 >> ((x % 8) as u8)
}

/// Whether the pixel at column `x`, row `y` of a message's byte region is
/// on.  Byte `(x / 8) * 11 + y` of the region holds 8 columns of row `y`.
pub open spec fn pixel_on(region: Seq<u8>, x: int, y: int) -> bool {
    region[(x / 8) * 11 + y] & column_mask(x) != 0
}

/// A display buffer for a single message: the region of a payload that
/// one `add_message` call appended, addressed by (column, row).
///
/// The region's bounds are fixed at creation, so a pixel write can never
/// reach the header or another message's region.
pub struct MessageBuffer {
    start: usize,
    groups: u16,
}

impl MessageBuffer {
    /// Offset of the message's byte region within the payload bytes.
    pub closed spec fn spec_start(self) -> int {
        self.start as int
    }

    /// The message's width in 8-column groups.
    pub closed spec fn spec_groups(self) -> int {
        self.groups as int
    }

    /// The region lies past the header and its end fits an index.
    pub open spec fn wf(self) -> bool {
        &&& HEADER_LEN <= self.spec_start()
        &&& self.spec_start() + self.spec_groups() * 11 <= usize::MAX
    }

    /// Set the state of the pixel at point `(x, y)`.
    ///
    /// Returns `None`, changing nothing, if the pixel is out of the
    /// message's bounds (or the buffer is shorter than the region, which
    /// cannot happen to a payload this library built).  Otherwise exactly
    /// one bit of the message's region changes: bit `0x80 >> (x % 8)` of
    /// byte `(x / 8) * 11 + y`.
    pub fn set(&self, payload: &mut PayloadBuffer, xy: (usize, usize), state: State) -> (r: Option<
        (),
    >)
        requires
            self.wf(),
        ensures
            final(payload).slots() == old(payload).slots(),
            final(payload).spec_num_messages() == old(payload).spec_num_messages(),
            old(payload).wf() ==> final(payload).wf(),
            ({
                let x = xy.0 as int;
                let y = xy.1 as int;
                let hit = x / 8 < self.spec_groups() && y < 11 && self.spec_start()
                    + self.spec_groups() * 11 <= old(payload)@.len();
                let idx = self.spec_start() + (x / 8) * 11 + y;
                match r {
                    Some(_) => hit && final(payload)@ == old(payload)@.update(
                        idx,
                        if state == State::On {
                            old(payload)@[idx] | column_mask(x)
                        } else {
                            old(payload)@[idx] & !column_mask(x)
                        },
                    ),
                    None => !hit && *final(payload) == *old(payload),
                }
            }),
    {
        let x = xy.0;
        let y = xy.1;
        let group = x / 8;
        if group >= self.groups as usize || y >= MESSAGE_HEIGHT {
            return None;
        }
        let end = self.start + (self.groups as usize) * MESSAGE_HEIGHT;
        if end > payload.data.len() {
            return None;
        }
        let idx = self.start + group * MESSAGE_HEIGHT + y;
        let mask: u8 = 0x80u8 >> ((x % 8) as u8);
        let b = payload.data[idx];
        let nb = match state {
            State::On => b | mask,
            State::Off => b & !mask,
        };
        payload.data[idx] = nb;
        Some(())
    }
}

impl PayloadBuffer {
    /// Add a message with `count * 8` columns, styled as given.
    ///
    /// The slot's blink bit, border bit, packed speed-and-mode byte and
    /// big-endian length field are written into the header, and the
    /// message's zeroed byte region is appended.  The returned
    /// `MessageBuffer` addresses exactly that region.
    ///
    /// A ninth message, or a count beyond the 16-bit length field, is a
    /// fatal contract violation, so `requires` excludes both: this
    /// library's verified functions do not panic.  `try_add_message` is
    /// the total form; its contract carries the rule that such a call
    /// fails without touching the buffer.
    pub fn add_message(&mut self, style: Style, count: usize) -> (r: MessageBuffer)
        requires
            old(self).wf(),
            old(self).slots().len() < MAX_MESSAGES,
            count <= MAX_COLUMN_GROUPS,
        ensures
            final(self).wf(),
            final(self).slots() == old(self).slots().push(
                SlotSpec { style, count: count as u16 },
            ),
            final(self)@.len() == old(self)@.len() + count * 11,
            final(self)@[5] == old(self)@[5],
            forall|j: int| 38 <= j < 44 ==> (#[trigger] final(self)@[j]) == old(self)@[j],
            forall|j: int|
                64 <= j < old(self)@.len() ==> (#[trigger] final(self)@[j]) == old(self)@[j],
            forall|j: int|
                old(self)@.len() <= j < final(self)@.len() ==> (#[trigger] final(self)@[j]) == 0u8,
            r.wf(),
            r.spec_start() == old(self)@.len(),
            r.spec_start() == slot_offset(final(self).slots(), old(self).slots().len() as int),
            r.spec_groups() == count,
    {
        proof {
            lemma_slots_data_len_bound(self.slots());
        }
        let index = self.num_messages as usize;
        let ghost old_slots = self.slots@;
        let ghost slot = SlotSpec { style, count: count as u16 };

        if style.blink {
            let b = self.data[6];
            self.data[6] = b | (1u8 << (index as u8));
        }
        if style.border {
            let b = self.data[7];
            self.data[7] = b | (1u8 << (index as u8));
        }
        let speed = style.speed.to_byte();
        let mode = style.mode.to_byte();
        let sm: u8 = speed * 16 + mode;
        self.data[8 + index] = sm;
        self.data[16 + 2 * index] = (count / 256) as u8;
        self.data[17 + 2 * index] = (count % 256) as u8;
        self.num_messages = self.num_messages + 1;
        self.slots = Ghost(old_slots.push(slot));
        proof {
            assert(old_slots.push(slot).drop_last() =~= old_slots);
        }

        let start = self.data.len();
        let ghost mid = self.data@;
        let ghost nm = self.num_messages;
        let total = count * MESSAGE_HEIGHT;
        let mut i: usize = 0;
        while i < total
            invariant
                i <= total,
                self.num_messages == nm,
                self.slots@ == old_slots.push(slot),
                self.data@.len() == mid.len() + i,
                self.data@.subrange(0, mid.len() as int) == mid,
                forall|j: int| mid.len() <= j < self.data@.len() ==> (#[trigger] self.data@[j]) == 0u8,
            decreases total - i,
        {
            self.data.push(0u8);
            proof {
                assert(self.data@.subrange(0, mid.len() as int) =~= mid);
            }
            i = i + 1;
        }
        // read back as a usize, so the region's end is known to fit an index
        let end_len = self.data.len();
        proof {
            let d = self.data@;
            let s = old_slots.push(slot);
            assert(end_len == start + total);
            assert(s.subrange(0, old_slots.len() as int) =~= old_slots);
            assert forall|j: int| 0 <= j < mid.len() implies d[j] == mid[j] by {
                assert(d.subrange(0, mid.len() as int)[j] == d[j]);
            }
            assert forall|j: int| 38 <= j < 44 implies (#[trigger] d[j]) == old(self)@[j] by {
                assert(d[j] == mid[j]);
            }
            assert forall|j: int| 64 <= j < old(self)@.len() implies (#[trigger] d[j]) == old(
                self,
            )@[j] by {
                assert(d[j] == mid[j]);
            }
            assert(d[6] == blink_mask(s));
            assert(d[7] == border_mask(s));
            assert forall|j: int| 8 <= j < 16 implies (#[trigger] d[j]) == style_byte(s, j - 8) by {
                assert(d[j] == mid[j]);
                if j - 8 < s.len() && j != 8 + index {
                    assert(s[j - 8] == old_slots[j - 8]);
                }
            }
            assert forall|j: int| 16 <= j < 32 implies (#[trigger] d[j]) == length_byte(
                s,
                j - 16,
            ) by {
                assert(d[j] == mid[j]);
                let k = j - 16;
                if k == 2 * index {
                    assert(k / 2 == index);
                    assert(k % 2 == 0);
                } else if k == 2 * index + 1 {
                    assert(k / 2 == index);
                    assert(k % 2 == 1);
                } else {
                    assert(k / 2 != index);
                    if k / 2 < s.len() {
                        assert(s[k / 2] == old_slots[k / 2]);
                    }
                }
            }
            assert forall|j: int| 32 <= j < 38 implies (#[trigger] d[j]) == 0 by {
                assert(d[j] == mid[j]);
            }
            assert forall|j: int| 44 <= j < 64 implies (#[trigger] d[j]) == 0 by {
                assert(d[j] == mid[j]);
            }
        }
        MessageBuffer { start, groups: count as u16 }
    }

    /// Add a message if a slot is still free and the width fits the
    /// header's 16-bit length field; otherwise return `None` and leave
    /// the buffer untouched.  In particular a ninth message always
    /// fails, with the buffer — header, message regions and slot record
    /// alike — exactly as it was.
    pub fn try_add_message(&mut self, style: Style, count: usize) -> (r: Option<MessageBuffer>)
        requires
            old(self).wf(),
        ensures
            final(self).wf(),
            ({
                match r {
                    Some(m) => {
                        &&& old(self).slots().len() < MAX_MESSAGES
                        &&& count <= MAX_COLUMN_GROUPS
                        &&& final(self).slots() == old(self).slots().push(
                            SlotSpec { style, count: count as u16 },
                        )
                        &&& final(self)@.len() == old(self)@.len() + count * 11
                        &&& final(self)@[5] == old(self)@[5]
                        &&& (forall|j: int|
                            38 <= j < 44 ==> (#[trigger] final(self)@[j]) == old(self)@[j])
                        &&& (forall|j: int|
                            64 <= j < old(self)@.len()
                                ==> (#[trigger] final(self)@[j]) == old(self)@[j])
                        &&& (forall|j: int|
                            old(self)@.len() <= j < final(self)@.len()
                                ==> (#[trigger] final(self)@[j]) == 0u8)
                        &&& m.wf()
                        &&& m.spec_start() == old(self)@.len()
                        &&& m.spec_groups() == count
                    },
                    None => {
                        &&& (old(self).slots().len() == MAX_MESSAGES || count > MAX_COLUMN_GROUPS)
                        &&& *final(self) == *old(self)
                    },
                }
            }),
    {
        if self.num_messages as usize >= MAX_MESSAGES || count > MAX_COLUMN_GROUPS {
            return None;
        }
        Some(self.add_message(style, count))
    }

    /// Convert the payload buffer into bytes, zero-padded to the next
    /// multiple of 64 bytes.
    pub fn into_padded_bytes(self) -> (r: Vec<u8>)
        requires
            self.wf(),
        ensures
            r@.len() == padded_len(self@.len() as int),
            r@.len() % 64 == 0,
            r@.len() >= self@.len(),
            r@.len() < self@.len() + 64,
            r@.subrange(0, self@.len() as int) == self@,
            forall|j: int| self@.len() <= j < r@.len() ==> (#[trigger] r@[j]) == 0u8,
    {
        proof {
            lemma_slots_data_len_bound(self.slots());
        }
        let PayloadBuffer { mut data, num_messages: _, slots: _ } = self;
        let len = data.len();
        let rem = len % 64;
        if rem != 0 {
            let pad = 64 - rem;
            let ghost mid = data@;
            let mut i: usize = 0;
            while i < pad
                invariant
                    i <= pad,
                    data@.len() == mid.len() + i,
                    data@.subrange(0, mid.len() as int) == mid,
                    forall|j: int| mid.len() <= j < data@.len() ==> (#[trigger] data@[j]) == 0u8,
                decreases pad - i,
            {
                data.push(0u8);
                proof {
                    assert(data@.subrange(0, mid.len() as int) =~= mid);
                }
                i = i + 1;
            }
            proof {
                vstd::arithmetic::div_mod::lemma_fundamental_div_mod(len as int, 64);
                vstd::arithmetic::div_mod::lemma_mod_multiples_basic((len as int / 64) + 1, 64);
                assert(data@.len() == 64 * ((len as int / 64) + 1));
            }
        } else {
            proof {
                assert(data@.subrange(0, len as int) =~= data@);
            }
        }
        data
    }
}

/// The unpadded length `n` rounded up to the next multiple of 64.
pub open spec fn padded_len(n: int) -> int {
    if n % 64 == 0 {
        n
    } else {
        n + (64 - n % 64)
    }
}

/// Whether bit `i` (value `1 << i`) of byte `b` is set.
pub open spec fn bit_of(b: u8, i: int) -> bool {
    b & (1u8 << (i as u8)) != 0
}

proof fn lemma_blink_mask_bits(s: Seq<SlotSpec>, i: int)
    requires
        s.len() <= 8,
        0 <= i < 8,
    ensures
        bit_of(blink_mask(s), i) <==> (i < s.len() && s[i].style.spec_blink()),
    decreases s.len(),
{
    let ii = i as u8;
    if s.len() == 0 {
        assert(0u8 & (1u8 << ii) == 0) by (bit_vector);
    } else {
        lemma_blink_mask_bits(s.drop_last(), i);
        let rest = blink_mask(s.drop_last());
        let k = (s.len() - 1) as u8;
        if s.last().style.spec_blink() {
            assert(((rest | (1u8 << k)) & (1u8 << ii) != 0) == ((rest & (1u8 << ii) != 0) || ii
                == k)) by (bit_vector)
                requires
                    ii < 8,
                    k < 8,
            ;
        }
    }
}

proof fn lemma_border_mask_bits(s: Seq<SlotSpec>, i: int)
    requires
        s.len() <= 8,
        0 <= i < 8,
    ensures
        bit_of(border_mask(s), i) <==> (i < s.len() && s[i].style.spec_border()),
    decreases s.len(),
{
    let ii = i as u8;
    if s.len() == 0 {
        assert(0u8 & (1u8 << ii) == 0) by (bit_vector);
    } else {
        lemma_border_mask_bits(s.drop_last(), i);
        let rest = border_mask(s.drop_last());
        let k = (s.len() - 1) as u8;
        if s.last().style.spec_border() {
            assert(((rest | (1u8 << k)) & (1u8 << ii) != 0) == ((rest & (1u8 << ii) != 0) || ii
                == k)) by (bit_vector)
                requires
                    ii < 8,
                    k < 8,
            ;
        }
    }
}

/// Law: in a well-formed payload the header's per-slot fields reflect
/// every appended message's style and width, in insertion order: bit `i`
/// of the blink and border bytes holds slot `i`'s flags, the packed byte
/// holds its speed and mode codes, and the big-endian 16-bit length field
/// holds its group count.
pub proof fn lemma_header_reflects_slots(p: PayloadBuffer)
    requires
        p.wf(),
    ensures
        forall|i: int|
            0 <= i < 8 ==> (#[trigger] bit_of(p@[6], i) <==> (i < p.slots().len()
                && p.slots()[i].style.spec_blink())),
        forall|i: int|
            0 <= i < 8 ==> (#[trigger] bit_of(p@[7], i) <==> (i < p.slots().len()
                && p.slots()[i].style.spec_border())),
        forall|i: int|
            0 <= i < p.slots().len() ==> p@[8 + i] == packed_style(
                (#[trigger] p.slots()[i]).style,
            ),
        forall|i: int|
            0 <= i < p.slots().len() ==> p@[16 + 2 * i] * 256 + p@[17 + 2 * i] == (#[trigger] p
                .slots()[i]).count,
{
    let s = p.slots();
    assert forall|i: int| 0 <= i < 8 implies (#[trigger] bit_of(p@[6], i) <==> (i < s.len()
        && s[i].style.spec_blink())) by {
        lemma_blink_mask_bits(s, i);
    }
    assert forall|i: int| 0 <= i < 8 implies (#[trigger] bit_of(p@[7], i) <==> (i < s.len()
        && s[i].style.spec_border())) by {
        lemma_border_mask_bits(s, i);
    }
    assert forall|i: int| 0 <= i < s.len() implies p@[8 + i] == packed_style(
        (#[trigger] s[i]).style,
    ) by {
        assert(p@[8 + i] == style_byte(s, i));
    }
    assert forall|i: int| 0 <= i < s.len() implies p@[16 + 2 * i] * 256 + p@[17 + 2 * i] == (
    #[trigger] s[i]).count by {
        assert(p@[16 + 2 * i] == length_byte(s, 2 * i));
        assert(p@[17 + 2 * i] == length_byte(s, 2 * i + 1));
        assert((2 * i) / 2 == i);
        assert((2 * i + 1) / 2 == i);
        vstd::arithmetic::div_mod::lemma_fundamental_div_mod(s[i].count as int, 256);
    }
}

/// A vector of `n` zero bytes.
fn zero_vec(n: usize) -> (r: Vec<u8>)
    ensures
        r@.len() == n,
        forall|j: int| 0 <= j < n ==> r@[j] == 0,
{
    let mut v: Vec<u8> = Vec::new();
    let mut i: usize = 0;
    while i < n
        invariant
            i <= n,
            v@.len() == i,
            forall|j: int| 0 <= j < i ==> v@[j] == 0,
        decreases n - i,
    {
        v.push(0);
        i = i + 1;
    }
    v
}

} // verus!
