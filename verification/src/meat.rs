//! The MeatPack alphabet: the bidirectional table between 4-bit codes and
//! the characters they stand for, the reserved command bytes, and the enums
//! shared by the packer and the unpacker.

use vstd::prelude::*;

verus! {

/// The signal byte `255`: two in a row introduce a command.
pub const SIGNAL_BYTE: u8 = 255;
/// Command byte enabling packed decoding.
pub const PACKING_ENABLED_BYTE: u8 = 251;
/// Command byte switching code `0b1011` from space to `E`.
pub const ENABLE_NO_SPACES: u8 = 247;
/// The line terminator.
pub const LINEFEED_BYTE: u8 = 10;
/// The byte that opens a comment (`;`).
pub const COMMENT_START_BYTE: u8 = 59;
/// The nibble reserved as the full-width escape marker.
pub const FULLWIDTH_BYTE: u8 = 15;
/// The three bytes that must precede packed data: signal, signal,
/// packing-enabled.
pub const MEATPACK_HEADER: [u8; 3] = [255, 255, 251];
/// The three bytes that switch code `0b1011` to `E`: signal, signal,
/// no-spaces-enabled.
pub const NO_SPACES_COMMAND: [u8; 3] = [255, 255, 247];

/// An enum detailing all the available MeatPack commands.
#[derive(Debug, Clone, Copy, PartialEq, Eq, Structural)]
pub enum MeatPackCommand {
    PackingEnabled,
    PackingDisabled,
    ResetAll,
    QueryConfig,
    NoSpacesEnabled,
    NoSpacesDisabled,
    SignalByte,
}

/// The errors that packing or unpacking a byte can report.
#[derive(Debug, Clone, Copy, PartialEq, Eq, Structural)]
pub enum MeatPackError {
    /// A packed byte carried the escape marker in both nibbles.
    InvalidByte(u8),
    /// A signal byte arrived where a raw escaped byte was expected.
    InvalidState,
    /// The byte after a command introducer is not a known command.
    InvalidCommandByte(u8),
    /// The fixed line buffer is full.
    BufferFull,
    /// A whole-block call ended while bytes of an unterminated line remain.
    UnterminatedLine(usize),
}

/// Tells the caller whether a fed byte completed a line.
#[derive(Debug, PartialEq, Eq)]
pub enum MeatPackResult {
    WaitingForNextByte,
    Line(Vec<u8>),
}

/// What one machine step reports, at the specification level: the exec
/// machines return a `Result<MeatPackResult, MeatPackError>` whose meaning
/// is one of these three.
pub enum StepOut {
    Waiting,
    Line(Seq<u8>),
    Fail(MeatPackError),
}

/// Whether an exec step result says exactly what the spec step reports.
pub open spec fn result_matches(r: Result<MeatPackResult, MeatPackError>, out: StepOut) -> bool {
    match (r, out) {
        (Ok(MeatPackResult::WaitingForNextByte), StepOut::Waiting) => true,
        (Ok(MeatPackResult::Line(l)), StepOut::Line(s)) => l@ == s,
        (Err(e), StepOut::Fail(e2)) => e == e2,
        _ => false,
    }
}

/// The capacity-checked push of the shared line-buffer discipline: the byte
/// goes on the end when there is room, and `None` reports that there is not.
pub open spec fn try_push(buf: Seq<u8>, cap: nat, b: u8) -> Option<Seq<u8>> {
    if buf.len() < cap {
        Some(buf.push(b))
    } else {
        None
    }
}

/// The outcome of running a machine over a whole byte stream at the spec
/// level: the final state with the concatenation of every reported line,
/// or the first error with the lines reported before it.
#[verifier::ext_equal]
pub enum MachineRun<M> {
    Complete { m: M, out: Seq<u8> },
    Failed { err: MeatPackError, out: Seq<u8> },
}

/// Prepends already-reported output to the outcome of the rest of a run.
pub open spec fn run_prepend<M>(pre: Seq<u8>, r: MachineRun<M>) -> MachineRun<M> {
    match r {
        MachineRun::Complete { m, out } => MachineRun::Complete { m, out: pre + out },
        MachineRun::Failed { err, out } => MachineRun::Failed { err, out: pre + out },
    }
}

/// Prepending output one piece at a time is prepending it all at once.
pub proof fn lemma_run_prepend_assoc<M>(a: Seq<u8>, b: Seq<u8>, r: MachineRun<M>)
    ensures
        run_prepend(a, run_prepend(b, r)) == run_prepend(a + b, r),
{
    match r {
        MachineRun::Complete { m, out } => {
            assert(a + (b + out) =~= (a + b) + out);
        },
        MachineRun::Failed { err, out } => {
            assert(a + (b + out) =~= (a + b) + out);
        },
    }
}

/// Prepending nothing changes nothing.
pub proof fn lemma_run_prepend_empty<M>(r: MachineRun<M>)
    ensures
        run_prepend(Seq::empty(), r) == r,
{
    match r {
        MachineRun::Complete { m, out } => {
            assert(Seq::empty() + out =~= out);
        },
        MachineRun::Failed { err, out } => {
            assert(Seq::empty() + out =~= out);
        },
    }
}

/// The 4-bit code for a character, if it has one. Code `0b1011` stands for
/// `E` when `no_spaces` is on and for space when it is off; every other
/// character maps the same way in both modes.
pub open spec fn code_for_char(b: u8, no_spaces: bool) -> Option<u8> {
    if 48 <= b <= 57 {
        Some((b - 48) as u8)
    } else if b == 46 {
        Some(10)
    } else if b == 69 && no_spaces {
        Some(11)
    } else if b == 32 && !no_spaces {
        Some(11)
    } else if b == 10 {
        Some(12)
    } else if b == 71 {
        Some(13)
    } else if b == 88 {
        Some(14)
    } else {
        None
    }
}

/// The character a 4-bit code stands for. Code 15, the full-width escape
/// marker, is reported as NUL: it carries no character of its own.
pub open spec fn decoded_char(code: u8, no_spaces: bool) -> u8 {
    if code <= 9 {
        (code + 48) as u8
    } else if code == 10 {
        46
    } else if code == 11 {
        if no_spaces {
            69
        } else {
            32
        }
    } else if code == 12 {
        10
    } else if code == 13 {
        71
    } else if code == 14 {
        88
    } else {
        0
    }
}

/// The character for a 4-bit value, `None` above 15.
pub open spec fn char_for_code(code: u8, no_spaces: bool) -> Option<u8> {
    if code <= 15 {
        Some(decoded_char(code, no_spaces))
    } else {
        None
    }
}

/// The command a byte stands for after two signal bytes.
pub open spec fn command_for_byte(b: u8) -> Result<MeatPackCommand, MeatPackError> {
    if b == 246 {
        Ok(MeatPackCommand::NoSpacesDisabled)
    } else if b == 247 {
        Ok(MeatPackCommand::NoSpacesEnabled)
    } else if b == 248 {
        Ok(MeatPackCommand::QueryConfig)
    } else if b == 249 {
        Ok(MeatPackCommand::ResetAll)
    } else if b == 250 {
        Ok(MeatPackCommand::PackingDisabled)
    } else if b == 251 {
        Ok(MeatPackCommand::PackingEnabled)
    } else if b == 255 {
        Ok(MeatPackCommand::SignalByte)
    } else {
        Err(MeatPackError::InvalidCommandByte(b))
    }
}

/// The four most significant bits of a byte.
pub open spec fn high_nibble(b: u8) -> u8 {
    b >> 4
}

/// The four least significant bits of a byte.
pub open spec fn low_nibble(b: u8) -> u8 {
    b & 0x0F
}

/// One byte holding two 4-bit codes: the second character of a pair in the
/// high nibble, the first in the low nibble.
pub open spec fn packed_pair(most: u8, least: u8) -> u8 {
    (most << 4) | least
}

/// Both nibbles of a byte are at most 15.
pub proof fn lemma_nibble_bounds(b: u8)
    ensures
        high_nibble(b) <= 15,
        low_nibble(b) <= 15,
{
    assert(b >> 4 <= 15 && b & 0x0F <= 15) by (bit_vector);
}

/// Packing two 4-bit codes into a byte and splitting that byte recovers
/// both codes, and the packed byte is the signal byte exactly when both
/// codes are the escape marker.
pub proof fn lemma_packed_pair(most: u8, least: u8)
    requires
        most <= 15,
        least <= 15,
    ensures
        high_nibble(packed_pair(most, least)) == most,
        low_nibble(packed_pair(most, least)) == least,
        (packed_pair(most, least) == 255) <==> (most == 15 && least == 15),
{
    assert(most <= 15 && least <= 15 ==> ((most << 4) | least) >> 4 == most
        && ((most << 4) | least) & 0x0F == least
        && ((((most << 4) | least) == 255) <==> (most == 15 && least == 15))) by (bit_vector);
}

/// This function checks whether a `u8` conforms to one of the reserved
/// command bytes.
///
/// | 8-bit decimal code | Command |
/// | --- | --- |
/// | 246 | No Spaces Disabled |
/// | 247 | No Spaces Enabled |
/// | 248 | Query Config |
/// | 249 | Reset All |
/// | 250 | Packing Disabled |
/// | 251 | Packing Enabled |
/// | 255 | Signal Byte |
pub fn determine_command(byte: &u8) -> (r: Result<MeatPackCommand, MeatPackError>)
    ensures
        r == command_for_byte(*byte),
{
    match *byte {
        246 => Ok(MeatPackCommand::NoSpacesDisabled),
        247 => Ok(MeatPackCommand::NoSpacesEnabled),
        248 => Ok(MeatPackCommand::QueryConfig),
        249 => Ok(MeatPackCommand::ResetAll),
        250 => Ok(MeatPackCommand::PackingDisabled),
        251 => Ok(MeatPackCommand::PackingEnabled),
        255 => Ok(MeatPackCommand::SignalByte),
        b => Err(MeatPackError::InvalidCommandByte(b)),
    }
}

/// Checks whether a `u8` is the signal byte `255`.
pub fn is_signal_byte(byte: &u8) -> (r: bool)
    ensures
        r == (*byte == SIGNAL_BYTE),
{
    *byte == SIGNAL_BYTE
}

/// Checks whether a `u8` is the linefeed byte `10`.
pub fn is_linefeed_byte(byte: &u8) -> (r: bool)
    ensures
        r == (*byte == LINEFEED_BYTE),
{
    *byte == LINEFEED_BYTE
}

/// Looks up the 4-bit code for a character, `None` for a full-width byte.
pub fn forward_lookup(byte: &u8, no_spaces: bool) -> (r: Option<u8>)
    ensures
        r == code_for_char(*byte, no_spaces),
{
    match *byte {
        48 => Some(0),
        49 => Some(1),
        50 => Some(2),
        51 => Some(3),
        52 => Some(4),
        53 => Some(5),
        54 => Some(6),
        55 => Some(7),
        56 => Some(8),
        57 => Some(9),
        46 => Some(10),
        69 => if no_spaces {
            Some(11)
        } else {
            None
        },
        32 => if no_spaces {
            None
        } else {
            Some(11)
        },
        10 => Some(12),
        71 => Some(13),
        88 => Some(14),
        _ => None,
    }
}

/// Looks up the character a 4-bit value stands for, `None` above 15.
pub fn reverse_lookup(byte: &u8, no_spaces: bool) -> (r: Option<u8>)
    ensures
        r == char_for_code(*byte, no_spaces),
{
    match *byte {
        0 => Some(48),
        1 => Some(49),
        2 => Some(50),
        3 => Some(51),
        4 => Some(52),
        5 => Some(53),
        6 => Some(54),
        7 => Some(55),
        8 => Some(56),
        9 => Some(57),
        10 => Some(46),
        11 => if no_spaces {
            Some(69)
        } else {
            Some(32)
        },
        12 => Some(10),
        13 => Some(71),
        14 => Some(88),
        15 => Some(0),
        _ => None,
    }
}

/// Splits a packed byte into the characters its two nibbles stand for,
/// high nibble first.
pub fn unpack_byte(byte: &u8, no_spaces: bool) -> (r: (u8, u8))
    ensures
        r.0 == decoded_char(high_nibble(*byte), no_spaces),
        r.1 == decoded_char(low_nibble(*byte), no_spaces),
{
    proof {
        lemma_nibble_bounds(*byte);
    }
    let most = *byte >> 4;
    let least = *byte & 0x0F;
    let u0 = reverse_lookup(&most, no_spaces).unwrap();
    let u1 = reverse_lookup(&least, no_spaces).unwrap();
    (u0, u1)
}

/// The ability of a byte to pack itself into a 4-bit code and to unpack
/// itself into the two characters its nibbles stand for.
pub trait Pack {
    /// What `pack` returns.
    spec fn pack_spec(&self, no_spaces: bool) -> Option<u8>;

    /// What `unpack` returns.
    spec fn unpack_spec(&self, no_spaces: bool) -> (u8, u8);

    /// Packs into a 4-bit code, or `None` for a full-width character.
    fn pack(&self, no_spaces: bool) -> (r: Option<u8>)
        ensures
            r == self.pack_spec(no_spaces),
    ;

    /// Unpacks into two characters, high nibble first.
    fn unpack(&self, no_spaces: bool) -> (r: (u8, u8))
        ensures
            r == self.unpack_spec(no_spaces),
    ;
}

impl Pack for u8 {
    open spec fn pack_spec(&self, no_spaces: bool) -> Option<u8> {
        code_for_char(*self, no_spaces)
    }

    open spec fn unpack_spec(&self, no_spaces: bool) -> (u8, u8) {
        (decoded_char(high_nibble(*self), no_spaces), decoded_char(low_nibble(*self), no_spaces))
    }

    fn pack(&self, no_spaces: bool) -> (r: Option<u8>) {
        forward_lookup(self, no_spaces)
    }

    fn unpack(&self, no_spaces: bool) -> (r: (u8, u8)) {
        unpack_byte(self, no_spaces)
    }
}

} // verus!
