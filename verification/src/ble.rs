//! BLE transport rules: the badge's advertised identity, and the write
//! session's state machine — connect, discover services, locate the
//! characteristic, stream 16-byte chunks, disconnect exactly once —
//! including the rule that a disconnect failure never masks the error
//! that made the session fail.

use crate::delivery::{DeliveryError, BLE_CHUNK_LEN, MAX_PAYLOAD_LEN};
use vstd::prelude::*;
use vstd::string::StringSliceAdditionalSpecFns;

verus! {

/// The 16-bit alias of the badge's advertised service identifier,
/// `0000fee0-0000-1000-8000-00805f9b34fb`.
pub const BADGE_SERVICE_UUID_SHORT: u16 = 0xfee0;

/// The 16-bit alias of the badge's payload characteristic,
/// `0000fee1-0000-1000-8000-00805f9b34fb`.
pub const BADGE_CHAR_UUID_SHORT: u16 = 0xfee1;

/// The badge's advertised device name, `LSLED`, as its five ASCII bytes.
pub open spec fn badge_name_bytes() -> Seq<u8> {
    seq![0x4cu8, 0x53u8, 0x4cu8, 0x45u8, 0x44u8]
}

/// Whether an advertised device name is exactly the badge's name.
/// Devices with other names are not badges, even when they advertise the
/// badge's service identifier.
pub fn is_badge_name(name: &str) -> (r: bool)
    ensures
        r <==> name.spec_bytes() == badge_name_bytes(),
{
    let b = name.as_bytes();
    let r = b.len() == 5 && b[0] == 0x4c && b[1] == 0x53 && b[2] == 0x4c && b[3] == 0x45 && b[4]
        == 0x44;
    proof {
        if r {
            assert(name.spec_bytes() =~= badge_name_bytes());
        } else {
            if name.spec_bytes() == badge_name_bytes() {
                assert(b@.len() == 5);
                assert(b@[0] == 0x4cu8 && b@[1] == 0x53u8 && b@[2] == 0x4cu8 && b@[3] == 0x45u8
                    && b@[4] == 0x44u8);
            }
        }
    }
    r
}

/// A BLE transport error, tagged with the phase that failed.
#[derive(Debug, Clone, Copy, PartialEq, Eq, Structural)]
pub enum BleError {
    /// Connecting to the peripheral failed; nothing to disconnect.
    Connect,
    /// Service discovery failed after connecting.
    DiscoverServices,
    /// The badge's payload characteristic was not found.
    CharacteristicMissing,
    /// A chunk write failed; the remaining chunks were abandoned.
    WriteChunk,
    /// The disconnect after a successful write failed.
    Disconnect,
}

/// The phase of a BLE write session: which step is owed next.
#[derive(Debug, Clone, Copy)]
pub enum BlePhase {
    /// Not yet connected; a connect failure ends the session at once.
    Connect,
    /// Connected; the peripheral's services must be discovered.
    Discover,
    /// Services known; the payload characteristic must be located.
    Locate,
    /// Streaming; the chunk at the session's offset is owed next.
    Write,
    /// Every chunk is written; disconnect, surfacing its failure.
    CleanupSuccess,
    /// A step after connecting failed; disconnect best-effort, then
    /// surface the stored error, suppressing the disconnect's own.
    CleanupFailure(BleError),
    /// The session is over with this outcome.
    Done(Result<(), BleError>),
}

/// The I/O step a session asks its driver to perform next.
#[derive(Debug, Clone, Copy)]
pub enum BleAction {
    /// Connect to the peripheral.
    Connect,
    /// Discover the peripheral's services.
    DiscoverServices,
    /// Look the payload characteristic up among the services.
    LocateCharacteristic,
    /// Write the 16-byte chunk at this offset, without acknowledgement.
    WriteChunk { offset: usize },
    /// Disconnect from the peripheral.
    Disconnect,
    /// Nothing is left to do; the session's outcome.
    Finish(Result<(), BleError>),
}

/// One badge write over BLE, as a state machine: the driver performs the
/// step `current_action` asks for and reports with `advance` whether it
/// succeeded.  On every path that gets past connecting, exactly one
/// disconnect is issued, and a failure of that disconnect is surfaced
/// only when everything else succeeded.
pub struct BleSession {
    payload: Vec<u8>,
    offset: usize,
    phase: BlePhase,
}

impl BleSession {
    /// The padded payload the session streams.
    pub closed spec fn spec_payload(self) -> Seq<u8> {
        self.payload@
    }

    /// How many bytes are already written.
    pub closed spec fn spec_offset(self) -> int {
        self.offset as int
    }

    /// The session's phase.
    pub closed spec fn spec_phase(self) -> BlePhase {
        self.phase
    }

    /// The payload is chunk-aligned and within the hardware limit, and
    /// the write offset is a chunk boundary inside it.
    pub open spec fn wf(self) -> bool {
        &&& self.spec_payload().len() as int % 16 == 0
        &&& self.spec_payload().len() <= MAX_PAYLOAD_LEN
        &&& self.spec_offset() % 16 == 0
        &&& self.spec_offset() <= self.spec_payload().len()
        &&& (self.spec_phase() is Write ==> self.spec_offset() < self.spec_payload().len())
        &&& (self.spec_phase() is Connect ==> self.spec_offset() == 0)
        &&& (self.spec_phase() is Discover ==> self.spec_offset() == 0)
        &&& (self.spec_phase() is Locate ==> self.spec_offset() == 0)
    }

    /// Start a session for a padded payload.  The delivery rules — chunk
    /// alignment and the 8192-byte hardware limit — are enforced here,
    /// before any device I/O.
    pub fn new(payload: Vec<u8>) -> (r: Result<BleSession, DeliveryError>)
        ensures
            match r {
                Ok(s) => {
                    &&& payload@.len() as int % 16 == 0
                    &&& payload@.len() <= MAX_PAYLOAD_LEN
                    &&& s.wf()
                    &&& s.spec_payload() == payload@
                    &&& s.spec_offset() == 0
                    &&& s.spec_phase() is Connect
                },
                Err(e) => {
                    &&& (payload@.len() as int % 16 != 0 || payload@.len() > MAX_PAYLOAD_LEN)
                    &&& (e == DeliveryError::NotChunkAligned <==> payload@.len() as int % 16 != 0)
                    &&& (e == DeliveryError::TooLong <==> (payload@.len() as int % 16 == 0
                        && payload@.len() > MAX_PAYLOAD_LEN))
                },
            },
    {
        let len = payload.len();
        match crate::delivery::validate_padded_len(len, BLE_CHUNK_LEN) {
            Ok(_) => Ok(BleSession { payload, offset: 0, phase: BlePhase::Connect }),
            Err(e) => Err(e),
        }
    }

    /// The step the driver owes next.
    pub open spec fn spec_action(self) -> BleAction {
        match self.spec_phase() {
            BlePhase::Connect => BleAction::Connect,
            BlePhase::Discover => BleAction::DiscoverServices,
            BlePhase::Locate => BleAction::LocateCharacteristic,
            BlePhase::Write => BleAction::WriteChunk { offset: self.spec_offset() as usize },
            BlePhase::CleanupSuccess => BleAction::Disconnect,
            BlePhase::CleanupFailure(_) => BleAction::Disconnect,
            BlePhase::Done(res) => BleAction::Finish(res),
        }
    }

    /// Ask which step is owed next.
    pub fn current_action(&self) -> (a: BleAction)
        ensures
            a == self.spec_action(),
    {
        match self.phase {
            BlePhase::Connect => BleAction::Connect,
            BlePhase::Discover => BleAction::DiscoverServices,
            BlePhase::Locate => BleAction::LocateCharacteristic,
            BlePhase::Write => BleAction::WriteChunk { offset: self.offset },
            BlePhase::CleanupSuccess => BleAction::Disconnect,
            BlePhase::CleanupFailure(_) => BleAction::Disconnect,
            BlePhase::Done(res) => BleAction::Finish(res),
        }
    }

    /// The 16 bytes owed at the current write step.
    pub fn current_chunk(&self) -> (c: Vec<u8>)
        requires
            self.wf(),
            self.spec_phase() is Write,
        ensures
            c@ == self.spec_payload().subrange(self.spec_offset(), self.spec_offset() + 16),
    {
        proof {
            assert(self.offset + 16 <= self.payload@.len()) by (nonlinear_arith)
                requires
                    self.offset < self.payload@.len(),
                    self.offset as int % 16 == 0,
                    self.payload@.len() as int % 16 == 0,
            ;
        }
        let mut c: Vec<u8> = Vec::new();
        let mut j: usize = 0;
        let n = self.payload.len();
        while j < 16
            invariant
                j <= 16,
                n == self.payload@.len(),
                self.offset + 16 <= n,
                c@.len() == j,
                forall|t: int| 0 <= t < j ==> (#[trigger] c@[t]) == self.payload@[self.offset + t],
        decreases 16 - j,
        {
            c.push(self.payload[self.offset + j]);
            j = j + 1;
        }
        proof {
            assert(c@ =~= self.spec_payload().subrange(
                self.spec_offset(),
                self.spec_offset() + 16,
            ));
        }
        c
    }

    /// The next-state relation: the phase and offset after one step,
    /// given whether the pending step succeeded.
    pub open spec fn spec_step(self, ok: bool) -> (BlePhase, int) {
        let len = self.spec_payload().len() as int;
        let off = self.spec_offset();
        match self.spec_phase() {
            BlePhase::Connect => if ok {
                (BlePhase::Discover, off)
            } else {
                (BlePhase::Done(Err(BleError::Connect)), off)
            },
            BlePhase::Discover => if ok {
                (BlePhase::Locate, off)
            } else {
                (BlePhase::CleanupFailure(BleError::DiscoverServices), off)
            },
            BlePhase::Locate => if ok {
                if len == 0 {
                    (BlePhase::CleanupSuccess, off)
                } else {
                    (BlePhase::Write, off)
                }
            } else {
                (BlePhase::CleanupFailure(BleError::CharacteristicMissing), off)
            },
            BlePhase::Write => if ok {
                if off + 16 == len {
                    (BlePhase::CleanupSuccess, off + 16)
                } else {
                    (BlePhase::Write, off + 16)
                }
            } else {
                (BlePhase::CleanupFailure(BleError::WriteChunk), off)
            },
            BlePhase::CleanupSuccess => if ok {
                (BlePhase::Done(Ok(())), off)
            } else {
                (BlePhase::Done(Err(BleError::Disconnect)), off)
            },
            BlePhase::CleanupFailure(e) => (BlePhase::Done(Err(e)), off),
            BlePhase::Done(res) => (BlePhase::Done(res), off),
        }
    }

    /// The number of chunk writes the session still owes its stream.
    pub open spec fn writes_remaining(self) -> int {
        (self.spec_payload().len() - self.spec_offset()) / 16
    }

    /// Report whether the pending step succeeded and move to the next
    /// phase, exactly as `spec_step` relates.
    pub fn advance(&mut self, ok: bool)
        requires
            old(self).wf(),
        ensures
            final(self).wf(),
            final(self).spec_payload() == old(self).spec_payload(),
            (final(self).spec_phase(), final(self).spec_offset()) == old(self).spec_step(ok),
    {
        match self.phase {
            BlePhase::Connect => {
                if ok {
                    self.phase = BlePhase::Discover;
                } else {
                    self.phase = BlePhase::Done(Err(BleError::Connect));
                }
            },
            BlePhase::Discover => {
                if ok {
                    self.phase = BlePhase::Locate;
                } else {
                    self.phase = BlePhase::CleanupFailure(BleError::DiscoverServices);
                }
            },
            BlePhase::Locate => {
                if ok {
                    if self.payload.len() == 0 {
                        self.phase = BlePhase::CleanupSuccess;
                    } else {
                        self.phase = BlePhase::Write;
                    }
                } else {
                    self.phase = BlePhase::CleanupFailure(BleError::CharacteristicMissing);
                }
            },
            BlePhase::Write => {
                if ok {
                    proof {
                        assert(self.offset + 16 <= self.payload@.len()) by (nonlinear_arith)
                            requires
                                self.offset < self.payload@.len(),
                                self.offset as int % 16 == 0,
                                self.payload@.len() as int % 16 == 0,
                        ;
                    }
                    self.offset = self.offset + 16;
                    if self.offset == self.payload.len() {
                        self.phase = BlePhase::CleanupSuccess;
                    }
                } else {
                    self.phase = BlePhase::CleanupFailure(BleError::WriteChunk);
                }
            },
            BlePhase::CleanupSuccess => {
                if ok {
                    self.phase = BlePhase::Done(Ok(()));
                } else {
                    self.phase = BlePhase::Done(Err(BleError::Disconnect));
                }
            },
            BlePhase::CleanupFailure(e) => {
                self.phase = BlePhase::Done(Err(e));
            },
            BlePhase::Done(_) => {
            },
        }
    }
}

/// Law: the stream writes its chunks in ascending offset order, one
/// 16-byte chunk per successful write step.  A session in its write
/// phase owes the chunk at its offset; a successful write moves the
/// offset forward 16 bytes and leaves exactly one fewer chunk owed, and
/// the stream moves on to its cleanup exactly when no chunk is owed —
/// so a payload of length `L` is written in exactly `L / 16` steps.
pub proof fn lemma_stream_progress(s: BleSession)
    requires
        s.wf(),
        s.spec_phase() is Write,
    ensures
        s.spec_action() == (BleAction::WriteChunk { offset: s.spec_offset() as usize }),
        s.writes_remaining() >= 1,
        s.spec_step(true).1 == s.spec_offset() + 16,
        (s.spec_payload().len() - s.spec_step(true).1) / 16 == s.writes_remaining() - 1,
        s.spec_step(true).0 is CleanupSuccess <==> s.writes_remaining() == 1,
        s.spec_step(true).0 is Write <==> s.writes_remaining() > 1,
        s.spec_step(false).1 == s.spec_offset(),
        s.spec_step(false).0 is CleanupFailure,
{
    let len = s.spec_payload().len() as int;
    let off = s.spec_offset();
    vstd::arithmetic::div_mod::lemma_fundamental_div_mod(len, 16);
    vstd::arithmetic::div_mod::lemma_fundamental_div_mod(off, 16);
    let a = len / 16;
    let b = off / 16;
    assert(len == 16 * a && off == 16 * b);
    assert(len - off == 16 * (a - b));
    assert(len - (off + 16) == 16 * (a - b - 1));
    vstd::arithmetic::div_mod::lemma_div_multiples_vanish(a - b, 16);
    vstd::arithmetic::div_mod::lemma_div_multiples_vanish(a - b - 1, 16);
}

} // verus!
