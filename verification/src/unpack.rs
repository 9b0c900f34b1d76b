//! The streaming decoder: consumes packed bytes one at a time and emits
//! lines of raw text.

use vstd::pervasive::VecAdditionalExecFns;
use vstd::prelude::*;
use vstd::slice::slice_index_get;
use vstd::slice::slice_to_vec;

use crate::meat::command_for_byte;
use crate::meat::lemma_run_prepend_assoc;
use crate::meat::lemma_run_prepend_empty;
use crate::meat::run_prepend;
use crate::meat::MachineRun;
use crate::meat::decoded_char;
use crate::meat::determine_command;
use crate::meat::high_nibble;
use crate::meat::low_nibble;
use crate::meat::result_matches;
use crate::meat::try_push;
use crate::meat::unpack_byte;
use crate::meat::MeatPackCommand;
use crate::meat::MeatPackError;
use crate::meat::MeatPackResult;
use crate::meat::StepOut;
use crate::meat::LINEFEED_BYTE;
use crate::meat::SIGNAL_BYTE;

verus! {

/// The states the unpacker's machine can be in.
#[derive(Debug, Clone, Copy, PartialEq, Eq, Structural)]
pub enum UnpackerState {
    /// One signal byte seen: a command may be starting.
    FirstCommandByte,
    /// Two signal bytes seen: the next byte is a command.
    SecondCommandByte,
    /// A packed byte escaped its second character: its raw byte comes next
    /// and belongs after what was already pushed.
    RightFullWidthByte,
    /// A packed byte escaped its first character: its raw byte comes next
    /// and fills the slot reserved before the character already pushed.
    LeftFullWidthByte,
    /// Packed decoding is active.
    Enabled,
    /// Packed decoding is not active: bytes pass through.
    Disabled,
}

/// The mathematical state of an unpacker.
#[verifier::ext_equal]
pub struct UnpackerModel {
    /// The machine state.
    pub state: UnpackerState,
    /// Whether code `0b1011` decodes to `E` instead of space.
    pub no_spaces: bool,
    /// Whether the buffer still holds a reported line that the next call
    /// must discard first.
    pub clear: bool,
    /// The decoded bytes of the line being accumulated.
    pub buf: Seq<u8>,
    /// The fixed capacity of the line buffer.
    pub cap: nat,
}

impl UnpackerModel {
    /// The internal invariant: the buffer respects its capacity, and in
    /// the backfill state the reserved slot and the character after it are
    /// really in the buffer.
    pub open spec fn wf(self) -> bool {
        &&& self.buf.len() <= self.cap
        &&& (self.state is LeftFullWidthByte ==> !self.clear && self.buf.len() >= 2)
    }
}

/// The unpacker state a fresh instance starts in: pass-through, until a
/// header enables decoding.
pub open spec fn unpacker_init(cap: nat) -> UnpackerModel {
    UnpackerModel {
        state: UnpackerState::Disabled,
        no_spaces: false,
        clear: false,
        buf: Seq::empty(),
        cap: cap,
    }
}

/// The deferred clear, as in the packer.
pub open spec fn unpacker_after_clear(m: UnpackerModel) -> UnpackerModel {
    if m.clear {
        UnpackerModel { buf: Seq::empty(), clear: false, ..m }
    } else {
        m
    }
}

/// What a recognized command does to the machine: toggling packing moves
/// between `Enabled` and `Disabled`, a reset also drops the no-spaces
/// flag, the no-spaces toggles set the flag and enable decoding, and the
/// query and signal-byte commands change nothing.
pub open spec fn apply_command(m: UnpackerModel, cmd: MeatPackCommand) -> UnpackerModel {
    match cmd {
        MeatPackCommand::PackingEnabled => UnpackerModel { state: UnpackerState::Enabled, ..m },
        MeatPackCommand::PackingDisabled => UnpackerModel { state: UnpackerState::Disabled, ..m },
        MeatPackCommand::ResetAll => UnpackerModel {
            state: UnpackerState::Disabled,
            no_spaces: false,
            ..m
        },
        MeatPackCommand::QueryConfig => m,
        MeatPackCommand::NoSpacesEnabled => UnpackerModel {
            state: UnpackerState::Enabled,
            no_spaces: true,
            ..m
        },
        MeatPackCommand::NoSpacesDisabled => UnpackerModel {
            state: UnpackerState::Enabled,
            no_spaces: false,
            ..m
        },
        MeatPackCommand::SignalByte => m,
    }
}

/// Decoding one non-signal packed byte while decoding is enabled: split it
/// into its two nibbles, push the characters they stand for in low-then-
/// high order, and divert to an escape state when a nibble is the escape
/// marker. A decoded character is 0 exactly when its nibble was the
/// marker.
pub open spec fn enabled_step(m: UnpackerModel, b: u8) -> (UnpackerModel, StepOut) {
    let hi = decoded_char(high_nibble(b), m.no_spaces);
    let lo = decoded_char(low_nibble(b), m.no_spaces);
    if hi == 10 && lo == 10 {
        // The compacted blank terminator decodes to a single newline.
        match try_push(m.buf, m.cap, 10) {
            None => (m, StepOut::Fail(MeatPackError::BufferFull)),
            Some(b1) => {
                let m2 = UnpackerModel { clear: true, buf: b1, ..m };
                if b1.len() > 1 {
                    (m2, StepOut::Line(b1))
                } else {
                    (m2, StepOut::Waiting)
                }
            },
        }
    } else if hi == 0 && lo != 0 {
        // The second character is escaped: push the first, await the raw
        // byte that belongs after it.
        match try_push(m.buf, m.cap, lo) {
            None => (m, StepOut::Fail(MeatPackError::BufferFull)),
            Some(b1) => (
                UnpackerModel { state: UnpackerState::RightFullWidthByte, buf: b1, ..m },
                StepOut::Waiting,
            ),
        }
    } else if hi != 0 && lo == 0 {
        // The first character is escaped: reserve its slot, push the
        // second, and await the raw byte that fills the slot.
        match try_push(m.buf, m.cap, lo) {
            None => (m, StepOut::Fail(MeatPackError::BufferFull)),
            Some(b1) => match try_push(b1, m.cap, hi) {
                None => (UnpackerModel { buf: b1, ..m }, StepOut::Fail(MeatPackError::BufferFull)),
                Some(b2) => (
                    UnpackerModel { state: UnpackerState::LeftFullWidthByte, buf: b2, ..m },
                    StepOut::Waiting,
                ),
            },
        }
    } else if hi == 0 && lo == 0 {
        // Both nibbles the escape marker would be the signal byte, which
        // never reaches ordinary decoding: the stream is malformed.
        (m, StepOut::Fail(MeatPackError::InvalidByte(b)))
    } else {
        match try_push(m.buf, m.cap, lo) {
            None => (m, StepOut::Fail(MeatPackError::BufferFull)),
            Some(b1) => match try_push(b1, m.cap, hi) {
                None => (UnpackerModel { buf: b1, ..m }, StepOut::Fail(MeatPackError::BufferFull)),
                Some(b2) => {
                    if hi == 10 {
                        let m2 = UnpackerModel { clear: true, buf: b2, ..m };
                        if b2.len() > 1 {
                            (m2, StepOut::Line(b2))
                        } else {
                            (m2, StepOut::Waiting)
                        }
                    } else {
                        (UnpackerModel { buf: b2, ..m }, StepOut::Waiting)
                    }
                },
            },
        }
    }
}

/// What feeding one packed byte does to an unpacker: the next state, and
/// what the call reports.
pub open spec fn unpacker_step(m0: UnpackerModel, b: u8) -> (UnpackerModel, StepOut) {
    let m = unpacker_after_clear(m0);
    if b == SIGNAL_BYTE {
        match m.state {
            UnpackerState::FirstCommandByte => (
                UnpackerModel { state: UnpackerState::SecondCommandByte, ..m },
                StepOut::Waiting,
            ),
            UnpackerState::Disabled => (
                UnpackerModel { state: UnpackerState::FirstCommandByte, ..m },
                StepOut::Waiting,
            ),
            UnpackerState::Enabled => (
                UnpackerModel { state: UnpackerState::FirstCommandByte, ..m },
                StepOut::Waiting,
            ),
            // After two signal bytes a third is the pass-through
            // signal-byte command, a no-op.
            UnpackerState::SecondCommandByte => (m, StepOut::Waiting),
            // A raw escaped byte was owed here and a signal byte cannot be
            // one: drop the poisoned line and reset to pass-through.
            _ => (
                UnpackerModel { state: UnpackerState::Disabled, buf: Seq::empty(), ..m },
                StepOut::Fail(MeatPackError::InvalidState),
            ),
        }
    } else {
        match m.state {
            UnpackerState::Disabled => match try_push(m.buf, m.cap, b) {
                None => (m, StepOut::Fail(MeatPackError::BufferFull)),
                Some(b1) => {
                    if b == LINEFEED_BYTE {
                        (UnpackerModel { clear: true, buf: b1, ..m }, StepOut::Line(b1))
                    } else {
                        (UnpackerModel { buf: b1, ..m }, StepOut::Waiting)
                    }
                },
            },
            UnpackerState::Enabled => enabled_step(m, b),
            UnpackerState::SecondCommandByte => match command_for_byte(b) {
                Err(e) => (m, StepOut::Fail(e)),
                Ok(cmd) => (apply_command(m, cmd), StepOut::Waiting),
            },
            // A lone signal byte not followed by a second one was the
            // packed double escape: this byte is the first raw character.
            UnpackerState::FirstCommandByte => {
                let m1 = UnpackerModel { state: UnpackerState::RightFullWidthByte, ..m };
                match try_push(m1.buf, m1.cap, b) {
                    None => (m1, StepOut::Fail(MeatPackError::BufferFull)),
                    Some(b1) => (UnpackerModel { buf: b1, ..m1 }, StepOut::Waiting),
                }
            },
            UnpackerState::RightFullWidthByte => {
                let m1 = UnpackerModel { state: UnpackerState::Enabled, ..m };
                match try_push(m1.buf, m1.cap, b) {
                    None => (m1, StepOut::Fail(MeatPackError::BufferFull)),
                    Some(b1) => (UnpackerModel { buf: b1, ..m1 }, StepOut::Waiting),
                }
            },
            UnpackerState::LeftFullWidthByte => {
                if m.buf.len() < 2 {
                    (UnpackerModel { state: UnpackerState::Enabled, ..m }, StepOut::Waiting)
                } else {
                    let b1 = m.buf.update(m.buf.len() - 2, b);
                    if b1[b1.len() - 1] == 10 {
                        (
                            UnpackerModel {
                                state: UnpackerState::Enabled,
                                clear: true,
                                buf: b1,
                                ..m
                            },
                            StepOut::Line(b1),
                        )
                    } else {
                        (
                            UnpackerModel { state: UnpackerState::Enabled, buf: b1, ..m },
                            StepOut::Waiting,
                        )
                    }
                }
            },
        }
    }
}

/// Running an unpacker over a whole byte stream: the final state and the
/// concatenation of every reported line, or the first error and the lines
/// reported before it.
pub open spec fn unpacker_run(m: UnpackerModel, input: Seq<u8>) -> MachineRun<UnpackerModel>
    decreases input.len(),
{
    if input.len() == 0 {
        MachineRun::Complete { m, out: Seq::empty() }
    } else {
        let s = unpacker_step(m, input[0]);
        match s.1 {
            StepOut::Fail(e) => MachineRun::Failed { err: e, out: Seq::empty() },
            StepOut::Waiting => unpacker_run(s.0, input.drop_first()),
            StepOut::Line(l) => run_prepend(l, unpacker_run(s.0, input.drop_first())),
        }
    }
}

/// A struct that unpacks packed bytes and emits lines of raw G-code, over
/// a line buffer of fixed capacity `S`.
pub struct Unpacker<const S: usize> {
    state: UnpackerState,
    no_spaces: bool,
    clear: bool,
    inner: Vec<u8>,
}

impl<const S: usize> View for Unpacker<S> {
    type V = UnpackerModel;

    closed spec fn view(&self) -> UnpackerModel {
        UnpackerModel {
            state: self.state,
            no_spaces: self.no_spaces,
            clear: self.clear,
            buf: self.inner@,
            cap: S as nat,
        }
    }
}

impl<const S: usize> Default for Unpacker<S> {
    /// A fresh unpacker passes bytes through until a header arrives.
    fn default() -> (r: Self)
        ensures
            r@ == unpacker_init(S as nat),
    {
        Unpacker {
            state: UnpackerState::Disabled,
            no_spaces: false,
            clear: false,
            inner: Vec::new(),
        }
    }
}

impl<const S: usize> Unpacker<S> {
    /// Discards the buffer of the previously reported line.
    fn clear_line(&mut self)
        ensures
            final(self)@ == (UnpackerModel { buf: Seq::<u8>::empty(), clear: false, ..old(self)@ }),
    {
        self.inner.clear();
        self.clear = false;
    }

    /// Appends one byte to the line buffer, refusing when it is full.
    fn push(&mut self, byte: u8) -> (r: Result<(), MeatPackError>)
        ensures
            ({
                let m = old(self)@;
                match r {
                    Ok(()) => m.buf.len() < m.cap && final(self)@ == (UnpackerModel {
                        buf: m.buf.push(byte),
                        ..m
                    }),
                    Err(e) => {
                        &&& e == MeatPackError::BufferFull
                        &&& m.buf.len() >= m.cap
                        &&& final(self)@ == m
                    },
                }
            }),
    {
        if self.inner.len() >= S {
            return Err(MeatPackError::BufferFull);
        }
        self.inner.push(byte);
        Ok(())
    }

    /// A copy of the buffered line for the caller.
    fn line_copy(&self) -> (r: Vec<u8>)
        ensures
            r@ == self@.buf,
    {
        slice_to_vec(self.inner.as_slice())
    }

    /// Applies a recognized command to the machine.
    fn handle_command(&mut self, cmd: MeatPackCommand)
        ensures
            final(self)@ == apply_command(old(self)@, cmd),
    {
        match cmd {
            MeatPackCommand::PackingEnabled => {
                self.state = UnpackerState::Enabled;
            },
            MeatPackCommand::PackingDisabled => {
                self.state = UnpackerState::Disabled;
            },
            MeatPackCommand::ResetAll => {
                self.state = UnpackerState::Disabled;
                self.no_spaces = false;
            },
            MeatPackCommand::QueryConfig => {},
            MeatPackCommand::NoSpacesEnabled => {
                self.no_spaces = true;
                self.state = UnpackerState::Enabled;
            },
            MeatPackCommand::NoSpacesDisabled => {
                self.no_spaces = false;
                self.state = UnpackerState::Enabled;
            },
            MeatPackCommand::SignalByte => {},
        }
    }

    /// Unpacks a single packed byte against the history of the stream so
    /// far, reporting the finished raw line whenever this byte completed
    /// one.
    pub fn unpack(&mut self, byte: &u8) -> (r: Result<MeatPackResult, MeatPackError>)
        requires
            old(self)@.wf(),
        ensures
            final(self)@.wf(),
            final(self)@ == unpacker_step(old(self)@, *byte).0,
            result_matches(r, unpacker_step(old(self)@, *byte).1),
    {
        let b = *byte;
        if self.clear {
            self.clear_line();
        }
        if b == SIGNAL_BYTE {
            match self.state {
                UnpackerState::FirstCommandByte => {
                    self.state = UnpackerState::SecondCommandByte;
                    return Ok(MeatPackResult::WaitingForNextByte);
                },
                UnpackerState::Disabled => {
                    self.state = UnpackerState::FirstCommandByte;
                    return Ok(MeatPackResult::WaitingForNextByte);
                },
                UnpackerState::Enabled => {
                    self.state = UnpackerState::FirstCommandByte;
                    return Ok(MeatPackResult::WaitingForNextByte);
                },
                UnpackerState::SecondCommandByte => {
                    return Ok(MeatPackResult::WaitingForNextByte);
                },
                _ => {
                    self.inner.clear();
                    self.state = UnpackerState::Disabled;
                    return Err(MeatPackError::InvalidState);
                },
            }
        }
        match self.state {
            UnpackerState::Disabled => {
                match self.push(b) {
                    Ok(()) => {},
                    Err(e) => {
                        return Err(e);
                    },
                }
                if b == LINEFEED_BYTE {
                    self.clear = true;
                    Ok(MeatPackResult::Line(self.line_copy()))
                } else {
                    Ok(MeatPackResult::WaitingForNextByte)
                }
            },
            UnpackerState::Enabled => {
                let (upper, lower) = unpack_byte(&b, self.no_spaces);
                if upper == 10 && lower == 10 {
                    match self.push(10) {
                        Ok(()) => {},
                        Err(e) => {
                            return Err(e);
                        },
                    }
                } else if upper == 0 && lower != 0 {
                    match self.push(lower) {
                        Ok(()) => {},
                        Err(e) => {
                            return Err(e);
                        },
                    }
                    self.state = UnpackerState::RightFullWidthByte;
                    return Ok(MeatPackResult::WaitingForNextByte);
                } else if upper != 0 && lower == 0 {
                    match self.push(lower) {
                        Ok(()) => {},
                        Err(e) => {
                            return Err(e);
                        },
                    }
                    match self.push(upper) {
                        Ok(()) => {},
                        Err(e) => {
                            return Err(e);
                        },
                    }
                    self.state = UnpackerState::LeftFullWidthByte;
                    return Ok(MeatPackResult::WaitingForNextByte);
                } else if upper == 0 && lower == 0 {
                    return Err(MeatPackError::InvalidByte(b));
                } else {
                    match self.push(lower) {
                        Ok(()) => {},
                        Err(e) => {
                            return Err(e);
                        },
                    }
                    match self.push(upper) {
                        Ok(()) => {},
                        Err(e) => {
                            return Err(e);
                        },
                    }
                }
                let n = self.inner.len();
                if self.inner[n - 1] == 10 && n > 1 {
                    self.clear = true;
                    return Ok(MeatPackResult::Line(self.line_copy()));
                }
                if self.inner[n - 1] == 10 {
                    self.clear = true;
                }
                Ok(MeatPackResult::WaitingForNextByte)
            },
            UnpackerState::SecondCommandByte => {
                let cmd = match determine_command(&b) {
                    Ok(cmd) => cmd,
                    Err(e) => {
                        return Err(e);
                    },
                };
                self.handle_command(cmd);
                Ok(MeatPackResult::WaitingForNextByte)
            },
            UnpackerState::FirstCommandByte => {
                self.state = UnpackerState::RightFullWidthByte;
                match self.push(b) {
                    Ok(()) => {},
                    Err(e) => {
                        return Err(e);
                    },
                }
                Ok(MeatPackResult::WaitingForNextByte)
            },
            UnpackerState::RightFullWidthByte => {
                self.state = UnpackerState::Enabled;
                match self.push(b) {
                    Ok(()) => {},
                    Err(e) => {
                        return Err(e);
                    },
                }
                Ok(MeatPackResult::WaitingForNextByte)
            },
            UnpackerState::LeftFullWidthByte => {
                self.state = UnpackerState::Enabled;
                let n = self.inner.len();
                self.inner.set(n - 2, b);
                if self.inner[n - 1] == 10 {
                    self.clear = true;
                    return Ok(MeatPackResult::Line(self.line_copy()));
                }
                Ok(MeatPackResult::WaitingForNextByte)
            },
        }
    }

    /// Unpacks a whole in-memory block by looping the per-byte machine,
    /// appending every decoded line to `out_buf`. The block must end on a
    /// line boundary, else the bytes of the unterminated line are counted
    /// in the error.
    pub fn unpack_slice(in_buf: &[u8], out_buf: &mut Vec<u8>) -> (r: Result<(), MeatPackError>)
        ensures
            ({
                let run = unpacker_run(unpacker_init(S as nat), in_buf@);
                match run {
                    MachineRun::Complete { m, out } => {
                        &&& final(out_buf)@ == old(out_buf)@ + out
                        &&& if m.clear && m.buf.len() > 0 {
                            r == Ok::<(), MeatPackError>(())
                        } else {
                            r == Err::<(), MeatPackError>(
                                MeatPackError::UnterminatedLine(m.buf.len() as usize),
                            )
                        }
                    },
                    MachineRun::Failed { err, out } => {
                        &&& final(out_buf)@ == old(out_buf)@ + out
                        &&& r == Err::<(), MeatPackError>(err)
                    },
                }
            }),
    {
        let mut unpacker = Unpacker::<S>::default();
        let ghost mut emitted: Seq<u8> = Seq::empty();
        proof {
            assert(out_buf@ =~= old(out_buf)@ + emitted);
            assert(in_buf@.skip(0) =~= in_buf@);
            lemma_run_prepend_empty(unpacker_run(unpacker@, in_buf@));
        }
        let mut i: usize = 0;
        while i < in_buf.len()
            invariant
                i <= in_buf@.len(),
                unpacker@.wf(),
                unpacker_run(unpacker_init(S as nat), in_buf@) == run_prepend(
                    emitted,
                    unpacker_run(unpacker@, in_buf@.skip(i as int)),
                ),
                out_buf@ == old(out_buf)@ + emitted,
            decreases in_buf@.len() - i,
        {
            let b = *slice_index_get(in_buf, i);
            let ghost pre = unpacker@;
            let ghost rest = in_buf@.skip(i as int);
            proof {
                assert(rest[0] == in_buf@[i as int]);
                assert(rest.drop_first() =~= in_buf@.skip(i as int + 1));
            }
            match unpacker.unpack(&b) {
                Ok(MeatPackResult::Line(line)) => {
                    out_buf.extend_from_slice(line.as_slice());
                    proof {
                        lemma_run_prepend_assoc(
                            emitted,
                            line@,
                            unpacker_run(unpacker@, in_buf@.skip(i as int + 1)),
                        );
                        emitted = emitted + line@;
                        assert(out_buf@ =~= old(out_buf)@ + emitted);
                    }
                },
                Ok(MeatPackResult::WaitingForNextByte) => {},
                Err(e) => {
                    proof {
                        assert(unpacker_run(pre, rest) == MachineRun::Failed::<UnpackerModel> {
                            err: e,
                            out: Seq::empty(),
                        });
                        assert(emitted + Seq::<u8>::empty() =~= emitted);
                    }
                    return Err(e);
                },
            }
            i = i + 1;
        }
        proof {
            assert(in_buf@.skip(i as int) =~= Seq::<u8>::empty());
            assert(emitted + Seq::<u8>::empty() =~= emitted);
        }
        if unpacker.data_remains() {
            return Err(MeatPackError::UnterminatedLine(unpacker.inner.len()));
        }
        Ok(())
    }

    /// Whether the machine still holds bytes of a line that was never
    /// closed by a newline.
    pub fn data_remains(&self) -> (r: bool)
        ensures
            r == !(self@.clear && self@.buf.len() > 0),
    {
        !self.clear || self.inner.len() == 0
    }
}

} // verus!
