//! The streaming encoder: consumes raw text one byte at a time and emits
//! lines of packed bytes.

use vstd::prelude::*;
use vstd::slice::slice_index_get;
use vstd::slice::slice_to_vec;

use crate::meat::code_for_char;
use crate::meat::lemma_run_prepend_assoc;
use crate::meat::lemma_run_prepend_empty;
use crate::meat::packed_pair;
use crate::meat::result_matches;
use crate::meat::run_prepend;
use crate::meat::try_push;
use crate::meat::MachineRun;
use crate::meat::MeatPackError;
use crate::meat::MeatPackResult;
use crate::meat::StepOut;
use crate::meat::COMMENT_START_BYTE;
use crate::meat::ENABLE_NO_SPACES;
use crate::meat::FULLWIDTH_BYTE;
use crate::meat::LINEFEED_BYTE;
use crate::meat::PACKING_ENABLED_BYTE;
use crate::meat::SIGNAL_BYTE;

verus! {

/// The mathematical state of a packer: the pending low-nibble code, the
/// raw byte waiting behind a pending escape, the mode flags, and the line
/// buffer with its fixed capacity.
#[verifier::ext_equal]
pub struct PackerModel {
    /// The code of the first character of an unfinished pair, 15 when that
    /// character is escaped.
    pub pending: Option<u8>,
    /// The raw byte behind a pending escape marker.
    pub pending_fullwidth: Option<u8>,
    /// Whether the buffer still holds a reported line that the next call
    /// must discard first.
    pub clear: bool,
    /// Whether spaces are dropped and code `0b1011` encodes `E`.
    pub no_spaces: bool,
    /// Whether `;`-comments are dropped up to the terminating newline.
    pub strip_comments: bool,
    /// Whether the bytes now arriving lie inside a comment.
    pub in_comment: bool,
    /// The packed bytes of the line being accumulated.
    pub buf: Seq<u8>,
    /// The fixed capacity of the line buffer.
    pub cap: nat,
}

impl PackerModel {
    /// The internal invariant: the buffer respects its capacity, a pending
    /// code is a real nibble, and a pending escape marker always has its
    /// raw byte alongside.
    pub open spec fn wf(self) -> bool {
        &&& self.buf.len() <= self.cap
        &&& (self.pending == Some(15u8) ==> self.pending_fullwidth is Some)
        &&& (self.pending matches Some(l) ==> l <= 15)
    }
}

/// The packer state a fresh instance starts in.
pub open spec fn packer_init(strip_comments: bool, no_spaces: bool, cap: nat) -> PackerModel {
    PackerModel {
        pending: None,
        pending_fullwidth: None,
        clear: false,
        no_spaces: no_spaces,
        strip_comments: strip_comments,
        in_comment: false,
        buf: Seq::empty(),
        cap: cap,
    }
}

/// The deferred clear: a buffer whose line was reported on the previous
/// call is discarded first thing on the next one.
pub open spec fn packer_after_clear(m: PackerModel) -> PackerModel {
    if m.clear {
        PackerModel { buf: Seq::empty(), clear: false, ..m }
    } else {
        m
    }
}

/// How a byte moves the comment flag: `;` raises it, the newline that ends
/// the comment lowers it, and nothing changes when stripping is off.
pub open spec fn packer_after_comment(m: PackerModel, b: u8) -> PackerModel {
    if m.strip_comments {
        if b == COMMENT_START_BYTE {
            PackerModel { in_comment: true, ..m }
        } else if b == LINEFEED_BYTE {
            PackerModel { in_comment: false, ..m }
        } else {
            m
        }
    } else {
        m
    }
}

/// The pairing logic on one byte that survived comment and space
/// stripping, keyed on the pending code.
pub open spec fn packer_pair_step(m: PackerModel, b: u8) -> (PackerModel, StepOut) {
    match m.pending {
        None => {
            if b == LINEFEED_BYTE {
                // A line terminator with no pending pair: pack it with
                // itself, and suppress the line when nothing else was
                // buffered.
                match try_push(m.buf, m.cap, packed_pair(12, 12)) {
                    Some(buf2) => {
                        let m2 = PackerModel { clear: true, buf: buf2, ..m };
                        if buf2.len() > 1 {
                            (m2, StepOut::Line(buf2))
                        } else {
                            (m2, StepOut::Waiting)
                        }
                    },
                    None => (m, StepOut::Fail(MeatPackError::BufferFull)),
                }
            } else {
                match code_for_char(b, m.no_spaces) {
                    Some(code) => (
                        PackerModel { pending: Some(code), pending_fullwidth: None, ..m },
                        StepOut::Waiting,
                    ),
                    None => (
                        PackerModel { pending: Some(15), pending_fullwidth: Some(b), ..m },
                        StepOut::Waiting,
                    ),
                }
            }
        },
        Some(least) => {
            let fw = match m.pending_fullwidth {
                Some(f) => f,
                None => 0,
            };
            if least == 15 {
                if b == LINEFEED_BYTE {
                    // Escaped first character closed by a newline: emit the
                    // packed byte then the raw byte, and report the line.
                    match try_push(m.buf, m.cap, packed_pair(12, 15)) {
                        None => (m, StepOut::Fail(MeatPackError::BufferFull)),
                        Some(b1) => match try_push(b1, m.cap, fw) {
                            None => (
                                PackerModel { buf: b1, ..m },
                                StepOut::Fail(MeatPackError::BufferFull),
                            ),
                            Some(b2) => (
                                PackerModel {
                                    pending: None,
                                    pending_fullwidth: None,
                                    clear: true,
                                    buf: b2,
                                    ..m
                                },
                                StepOut::Line(b2),
                            ),
                        },
                    }
                } else {
                    match code_for_char(b, m.no_spaces) {
                        Some(most) => {
                            // Escaped first character, encodable second.
                            match try_push(m.buf, m.cap, packed_pair(most, 15)) {
                                None => (m, StepOut::Fail(MeatPackError::BufferFull)),
                                Some(b1) => match try_push(b1, m.cap, fw) {
                                    None => (
                                        PackerModel { buf: b1, ..m },
                                        StepOut::Fail(MeatPackError::BufferFull),
                                    ),
                                    Some(b2) => (
                                        PackerModel {
                                            pending: None,
                                            pending_fullwidth: None,
                                            buf: b2,
                                            ..m
                                        },
                                        StepOut::Waiting,
                                    ),
                                },
                            }
                        },
                        None => {
                            // Both characters escaped: the packed byte is
                            // numerically the signal byte, followed by the
                            // two raw bytes.
                            match try_push(m.buf, m.cap, packed_pair(15, 15)) {
                                None => (m, StepOut::Fail(MeatPackError::BufferFull)),
                                Some(b1) => match try_push(b1, m.cap, fw) {
                                    None => (
                                        PackerModel { buf: b1, ..m },
                                        StepOut::Fail(MeatPackError::BufferFull),
                                    ),
                                    Some(b2) => match try_push(b2, m.cap, b) {
                                        None => (
                                            PackerModel { buf: b2, ..m },
                                            StepOut::Fail(MeatPackError::BufferFull),
                                        ),
                                        Some(b3) => (
                                            PackerModel {
                                                pending: None,
                                                pending_fullwidth: None,
                                                buf: b3,
                                                ..m
                                            },
                                            StepOut::Waiting,
                                        ),
                                    },
                                },
                            }
                        },
                    }
                }
            } else {
                if b == LINEFEED_BYTE {
                    // Encodable first character closed by a newline.
                    match try_push(m.buf, m.cap, packed_pair(12, least)) {
                        None => (m, StepOut::Fail(MeatPackError::BufferFull)),
                        Some(b1) => (
                            PackerModel {
                                pending: None,
                                pending_fullwidth: None,
                                clear: true,
                                buf: b1,
                                ..m
                            },
                            StepOut::Line(b1),
                        ),
                    }
                } else {
                    match code_for_char(b, m.no_spaces) {
                        Some(most) => {
                            // Two encodable characters make one packed byte.
                            match try_push(m.buf, m.cap, packed_pair(most, least)) {
                                None => (m, StepOut::Fail(MeatPackError::BufferFull)),
                                Some(b1) => (
                                    PackerModel {
                                        pending: None,
                                        pending_fullwidth: None,
                                        buf: b1,
                                        ..m
                                    },
                                    StepOut::Waiting,
                                ),
                            }
                        },
                        None => {
                            // Encodable first character, escaped second.
                            match try_push(m.buf, m.cap, packed_pair(15, least)) {
                                None => (m, StepOut::Fail(MeatPackError::BufferFull)),
                                Some(b1) => match try_push(b1, m.cap, b) {
                                    None => (
                                        PackerModel { buf: b1, ..m },
                                        StepOut::Fail(MeatPackError::BufferFull),
                                    ),
                                    Some(b2) => (
                                        PackerModel {
                                            pending: None,
                                            pending_fullwidth: None,
                                            buf: b2,
                                            ..m
                                        },
                                        StepOut::Waiting,
                                    ),
                                },
                            }
                        },
                    }
                }
            }
        },
    }
}

/// What feeding one raw byte does to a packer: the next state, and what
/// the call reports.
pub open spec fn packer_step(m0: PackerModel, b: u8) -> (PackerModel, StepOut) {
    let m1 = packer_after_clear(m0);
    let m = packer_after_comment(m1, b);
    if m.strip_comments && m.in_comment {
        (m, StepOut::Waiting)
    } else if m.no_spaces && b == 32 {
        (m, StepOut::Waiting)
    } else {
        packer_pair_step(m, b)
    }
}

/// Running a packer over a whole byte stream: the final state and the
/// concatenation of every reported line, or the first error and the lines
/// reported before it.
pub open spec fn packer_run(m: PackerModel, input: Seq<u8>) -> MachineRun<PackerModel>
    decreases input.len(),
{
    if input.len() == 0 {
        MachineRun::Complete { m, out: Seq::empty() }
    } else {
        let s = packer_step(m, input[0]);
        match s.1 {
            StepOut::Fail(e) => MachineRun::Failed { err: e, out: Seq::empty() },
            StepOut::Waiting => packer_run(s.0, input.drop_first()),
            StepOut::Line(l) => run_prepend(l, packer_run(s.0, input.drop_first())),
        }
    }
}

/// The bytes a whole-block pack writes before any data: the packing
/// header, and the no-spaces command when that mode is chosen.
pub open spec fn header_seq(no_spaces: bool) -> Seq<u8> {
    if no_spaces {
        seq![255u8, 255u8, 251u8, 255u8, 255u8, 247u8]
    } else {
        seq![255u8, 255u8, 251u8]
    }
}

/// A struct that packs bytes and emits lines of packed G-code, over a line
/// buffer of fixed capacity `S`.
pub struct Packer<const S: usize> {
    least: Option<u8>,
    fullwidth: Option<u8>,
    clear: bool,
    no_spaces: bool,
    strip_comments: bool,
    comment_flag: bool,
    inner: Vec<u8>,
}

impl<const S: usize> View for Packer<S> {
    type V = PackerModel;

    closed spec fn view(&self) -> PackerModel {
        PackerModel {
            pending: self.least,
            pending_fullwidth: self.fullwidth,
            clear: self.clear,
            no_spaces: self.no_spaces,
            strip_comments: self.strip_comments,
            in_comment: self.comment_flag,
            buf: self.inner@,
            cap: S as nat,
        }
    }
}

impl<const S: usize> Default for Packer<S> {
    /// The default packer strips comments and keeps whitespace.
    fn default() -> (r: Self)
        ensures
            r@ == packer_init(true, false, S as nat),
    {
        Self::new(true, false)
    }
}

impl<const S: usize> Packer<S> {
    /// Creates a packer. With `strip_whitespace` the packer drops spaces
    /// and encodes `E` with code `0b1011`; a matching decoder must then be
    /// switched with the no-spaces command.
    pub fn new(strip_comments: bool, strip_whitespace: bool) -> (r: Self)
        ensures
            r@ == packer_init(strip_comments, strip_whitespace, S as nat),
    {
        Packer {
            least: None,
            fullwidth: None,
            clear: false,
            no_spaces: strip_whitespace,
            strip_comments: strip_comments,
            comment_flag: false,
            inner: Vec::new(),
        }
    }

    /// Discards the buffer of the previously reported line.
    fn clear_line(&mut self)
        ensures
            final(self)@ == (PackerModel { buf: Seq::<u8>::empty(), clear: false, ..old(self)@ }),
    {
        self.inner.clear();
        self.clear = false;
    }

    /// Appends one byte to the line buffer, refusing when it is full.
    fn push(&mut self, byte: u8) -> (r: Result<(), MeatPackError>)
        ensures
            ({
                let m = old(self)@;
                match r {
                    Ok(()) => m.buf.len() < m.cap && final(self)@ == (PackerModel {
                        buf: m.buf.push(byte),
                        ..m
                    }),
                    Err(e) => {
                        &&& e == MeatPackError::BufferFull
                        &&& m.buf.len() >= m.cap
                        &&& final(self)@ == m
                    },
                }
            }),
    {
        if self.inner.len() >= S {
            return Err(MeatPackError::BufferFull);
        }
        self.inner.push(byte);
        Ok(())
    }

    /// A copy of the buffered line for the caller.
    fn line_copy(&self) -> (r: Vec<u8>)
        ensures
            r@ == self@.buf,
    {
        slice_to_vec(self.inner.as_slice())
    }

    /// Packs one byte into the current line, reporting the finished packed
    /// line whenever this byte terminated one.
    pub fn pack(&mut self, b: &u8) -> (r: Result<MeatPackResult, MeatPackError>)
        requires
            old(self)@.wf(),
        ensures
            final(self)@.wf(),
            final(self)@ == packer_step(old(self)@, *b).0,
            result_matches(r, packer_step(old(self)@, *b).1),
    {
        let byte = *b;
        if self.clear {
            self.clear_line();
        }
        if self.strip_comments {
            if byte == COMMENT_START_BYTE {
                self.comment_flag = true;
            }
            if byte == LINEFEED_BYTE {
                self.comment_flag = false;
            }
            if self.comment_flag {
                return Ok(MeatPackResult::WaitingForNextByte);
            }
        }
        if self.no_spaces && byte == 32 {
            return Ok(MeatPackResult::WaitingForNextByte);
        }
        match self.least {
            None => {
                if byte == LINEFEED_BYTE {
                    let packed = pack_nibbles(12, 12);
                    match self.push(packed) {
                        Ok(()) => {},
                        Err(e) => {
                            return Err(e);
                        },
                    }
                    self.clear = true;
                    if self.inner.len() > 1 {
                        Ok(MeatPackResult::Line(self.line_copy()))
                    } else {
                        Ok(MeatPackResult::WaitingForNextByte)
                    }
                } else {
                    match crate::meat::forward_lookup(&byte, self.no_spaces) {
                        Some(code) => {
                            self.least = Some(code);
                            self.fullwidth = None;
                            Ok(MeatPackResult::WaitingForNextByte)
                        },
                        None => {
                            self.least = Some(FULLWIDTH_BYTE);
                            self.fullwidth = Some(byte);
                            Ok(MeatPackResult::WaitingForNextByte)
                        },
                    }
                }
            },
            Some(least) => {
                if least == FULLWIDTH_BYTE {
                    let fw = self.fullwidth.unwrap();
                    if byte == LINEFEED_BYTE {
                        let packed = pack_nibbles(12, FULLWIDTH_BYTE);
                        match self.push(packed) {
                            Ok(()) => {},
                            Err(e) => {
                                return Err(e);
                            },
                        }
                        match self.push(fw) {
                            Ok(()) => {},
                            Err(e) => {
                                return Err(e);
                            },
                        }
                        self.least = None;
                        self.fullwidth = None;
                        self.clear = true;
                        Ok(MeatPackResult::Line(self.line_copy()))
                    } else {
                        match crate::meat::forward_lookup(&byte, self.no_spaces) {
                            Some(most) => {
                                let packed = pack_nibbles(most, FULLWIDTH_BYTE);
                                match self.push(packed) {
                                    Ok(()) => {},
                                    Err(e) => {
                                        return Err(e);
                                    },
                                }
                                match self.push(fw) {
                                    Ok(()) => {},
                                    Err(e) => {
                                        return Err(e);
                                    },
                                }
                                self.least = None;
                                self.fullwidth = None;
                                Ok(MeatPackResult::WaitingForNextByte)
                            },
                            None => {
                                let packed = pack_nibbles(FULLWIDTH_BYTE, FULLWIDTH_BYTE);
                                match self.push(packed) {
                                    Ok(()) => {},
                                    Err(e) => {
                                        return Err(e);
                                    },
                                }
                                match self.push(fw) {
                                    Ok(()) => {},
                                    Err(e) => {
                                        return Err(e);
                                    },
                                }
                                match self.push(byte) {
                                    Ok(()) => {},
                                    Err(e) => {
                                        return Err(e);
                                    },
                                }
                                self.least = None;
                                self.fullwidth = None;
                                Ok(MeatPackResult::WaitingForNextByte)
                            },
                        }
                    }
                } else {
                    if byte == LINEFEED_BYTE {
                        let packed = pack_nibbles(12, least);
                        match self.push(packed) {
                            Ok(()) => {},
                            Err(e) => {
                                return Err(e);
                            },
                        }
                        self.least = None;
                        self.fullwidth = None;
                        self.clear = true;
                        Ok(MeatPackResult::Line(self.line_copy()))
                    } else {
                        match crate::meat::forward_lookup(&byte, self.no_spaces) {
                            Some(most) => {
                                let packed = pack_nibbles(most, least);
                                match self.push(packed) {
                                    Ok(()) => {},
                                    Err(e) => {
                                        return Err(e);
                                    },
                                }
                                self.least = None;
                                self.fullwidth = None;
                                Ok(MeatPackResult::WaitingForNextByte)
                            },
                            None => {
                                let packed = pack_nibbles(FULLWIDTH_BYTE, least);
                                match self.push(packed) {
                                    Ok(()) => {},
                                    Err(e) => {
                                        return Err(e);
                                    },
                                }
                                match self.push(byte) {
                                    Ok(()) => {},
                                    Err(e) => {
                                        return Err(e);
                                    },
                                }
                                self.least = None;
                                self.fullwidth = None;
                                Ok(MeatPackResult::WaitingForNextByte)
                            },
                        }
                    }
                }
            },
        }
    }

    /// Packs a whole in-memory block by looping the per-byte machine:
    /// writes the header (and the no-spaces command when chosen), then
    /// appends every packed line to `out_buf`. The block must end on a
    /// line boundary, else the bytes of the unterminated line are counted
    /// in the error.
    pub fn pack_slice(
        in_buf: &[u8],
        out_buf: &mut Vec<u8>,
        strip_comments: bool,
        strip_whitespace: bool,
    ) -> (r: Result<(), MeatPackError>)
        ensures
            ({
                let run = packer_run(
                    packer_init(strip_comments, strip_whitespace, S as nat),
                    in_buf@,
                );
                match run {
                    MachineRun::Complete { m, out } => {
                        &&& final(out_buf)@ == old(out_buf)@ + header_seq(strip_whitespace) + out
                        &&& if m.clear && m.buf.len() > 0 {
                            r == Ok::<(), MeatPackError>(())
                        } else {
                            r == Err::<(), MeatPackError>(
                                MeatPackError::UnterminatedLine(m.buf.len() as usize),
                            )
                        }
                    },
                    MachineRun::Failed { err, out } => {
                        &&& final(out_buf)@ == old(out_buf)@ + header_seq(strip_whitespace) + out
                        &&& r == Err::<(), MeatPackError>(err)
                    },
                }
            }),
    {
        out_buf.push(SIGNAL_BYTE);
        out_buf.push(SIGNAL_BYTE);
        out_buf.push(PACKING_ENABLED_BYTE);
        if strip_whitespace {
            out_buf.push(SIGNAL_BYTE);
            out_buf.push(SIGNAL_BYTE);
            out_buf.push(ENABLE_NO_SPACES);
        }
        let mut packer = Packer::<S>::new(strip_comments, strip_whitespace);
        let ghost mut emitted: Seq<u8> = Seq::empty();
        proof {
            assert(out_buf@ =~= old(out_buf)@ + header_seq(strip_whitespace) + emitted);
            assert(in_buf@.skip(0) =~= in_buf@);
            lemma_run_prepend_empty(packer_run(packer@, in_buf@));
        }
        let mut i: usize = 0;
        while i < in_buf.len()
            invariant
                i <= in_buf@.len(),
                packer@.wf(),
                packer_run(packer_init(strip_comments, strip_whitespace, S as nat), in_buf@)
                    == run_prepend(emitted, packer_run(packer@, in_buf@.skip(i as int))),
                out_buf@ == old(out_buf)@ + header_seq(strip_whitespace) + emitted,
            decreases in_buf@.len() - i,
        {
            let b = *slice_index_get(in_buf, i);
            let ghost pre = packer@;
            let ghost rest = in_buf@.skip(i as int);
            proof {
                assert(rest[0] == in_buf@[i as int]);
                assert(rest.drop_first() =~= in_buf@.skip(i as int + 1));
            }
            match packer.pack(&b) {
                Ok(MeatPackResult::Line(line)) => {
                    out_buf.extend_from_slice(line.as_slice());
                    proof {
                        lemma_run_prepend_assoc(
                            emitted,
                            line@,
                            packer_run(packer@, in_buf@.skip(i as int + 1)),
                        );
                        emitted = emitted + line@;
                        assert(out_buf@ =~= old(out_buf)@ + header_seq(strip_whitespace) + emitted);
                    }
                },
                Ok(MeatPackResult::WaitingForNextByte) => {},
                Err(e) => {
                    proof {
                        assert(packer_run(pre, rest) == MachineRun::Failed::<PackerModel> {
                            err: e,
                            out: Seq::empty(),
                        });
                        assert(emitted + Seq::<u8>::empty() =~= emitted);
                    }
                    return Err(e);
                },
            }
            i = i + 1;
        }
        proof {
            assert(in_buf@.skip(i as int) =~= Seq::<u8>::empty());
            assert(emitted + Seq::<u8>::empty() =~= emitted);
        }
        if packer.data_remains() {
            return Err(MeatPackError::UnterminatedLine(packer.inner.len()));
        }
        Ok(())
    }

    /// Whether the machine still holds bytes of a line that was never
    /// closed by a newline: every well-formed packed stream ends on a line
    /// boundary.
    pub fn data_remains(&self) -> (r: bool)
        ensures
            r == !(self@.clear && self@.buf.len() > 0),
    {
        !self.clear || self.inner.len() == 0
    }
}

/// One byte holding two 4-bit codes, second character high, first low.
fn pack_nibbles(most: u8, least: u8) -> (r: u8)
    ensures
        r == packed_pair(most, least),
{
    (most << 4) | least
}

} // verus!
