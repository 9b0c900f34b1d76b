//! The laws of the codec: what a packed stream looks like for a given
//! text, and that unpacking undoes packing.

use vstd::prelude::*;

use crate::meat::code_for_char;
use crate::meat::decoded_char;
use crate::meat::lemma_packed_pair;
use crate::meat::MeatPackError;
use crate::meat::packed_pair;
use crate::meat::run_prepend;
use crate::meat::MachineRun;
use crate::meat::StepOut;
use crate::pack::header_seq;
use crate::pack::packer_after_clear;
use crate::pack::packer_init;
use crate::pack::packer_run;
use crate::pack::packer_step;
use crate::pack::PackerModel;
use crate::unpack::unpacker_after_clear;
use crate::unpack::unpacker_init;
use crate::unpack::unpacker_run;
use crate::unpack::unpacker_step;
use crate::unpack::UnpackerModel;
use crate::unpack::UnpackerState;

verus! {

/// The packed bytes for one pair of raw characters: two codes share a
/// byte, an escaped character follows its packed byte raw, and two
/// escaped characters yield the signal-byte-valued double escape followed
/// by both raw bytes.
pub open spec fn packed_pair_bytes(c0: u8, c1: u8, no_spaces: bool) -> Seq<u8> {
    match (code_for_char(c0, no_spaces), code_for_char(c1, no_spaces)) {
        (Some(k0), Some(k1)) => seq![packed_pair(k1, k0)],
        (Some(k0), None) => seq![packed_pair(15, k0), c1],
        (None, Some(k1)) => seq![packed_pair(k1, 15), c0],
        (None, None) => seq![packed_pair(15, 15), c0, c1],
    }
}

/// The packed bytes for one whole line (without its terminator): pairs of
/// characters, with the newline folded into the last packed byte — packed
/// with itself when the line is blank, with the odd last character when
/// one is left over.
pub open spec fn packed_line(line: Seq<u8>, no_spaces: bool) -> Seq<u8>
    decreases line.len(),
{
    if line.len() == 0 {
        seq![packed_pair(12, 12)]
    } else if line.len() == 1 {
        match code_for_char(line[0], no_spaces) {
            Some(k0) => seq![packed_pair(12, k0)],
            None => seq![packed_pair(12, 15), line[0]],
        }
    } else {
        packed_pair_bytes(line[0], line[1], no_spaces) + packed_line(line.skip(2), no_spaces)
    }
}

/// A text as its lines: each line followed by its terminator.
pub open spec fn join_lines(lines: Seq<Seq<u8>>) -> Seq<u8>
    decreases lines.len(),
{
    if lines.len() == 0 {
        Seq::empty()
    } else {
        lines[0] + seq![10u8] + join_lines(lines.drop_first())
    }
}

/// The packed stream for a text given as its lines.
pub open spec fn packed_lines(lines: Seq<Seq<u8>>, no_spaces: bool) -> Seq<u8>
    decreases lines.len(),
{
    if lines.len() == 0 {
        Seq::empty()
    } else {
        packed_line(lines[0], no_spaces) + packed_lines(lines.drop_first(), no_spaces)
    }
}

/// What a text must look like for the round trip: every line nonempty,
/// free of terminators and signal bytes, free of spaces when they are
/// being dropped, and short enough that both its packed and its raw form
/// fit the fixed buffers.
pub open spec fn lines_ok(lines: Seq<Seq<u8>>, no_spaces: bool, cap: nat) -> bool {
    forall|i: int|
        #![auto]
        0 <= i < lines.len() ==> {
            &&& lines[i].len() > 0
            &&& (forall|j: int| #![auto] 0 <= j < lines[i].len() ==> lines[i][j] != 10 && lines[i][j] != 255)
            &&& (no_spaces ==> forall|j: int| #![auto] 0 <= j < lines[i].len() ==> lines[i][j] != 32)
            &&& packed_line(lines[i], no_spaces).len() <= cap
            &&& lines[i].len() + 1 <= cap
        }
}

/// An encodable character comes back out of the table unchanged: its code
/// is a real nibble, never the escape marker, and it decodes to the very
/// character.
pub proof fn lemma_table_roundtrip(c: u8, no_spaces: bool)
    ensures
        code_for_char(c, no_spaces) matches Some(k) ==> {
            &&& k <= 14
            &&& decoded_char(k, no_spaces) == c
            &&& c != 0
        },
{
}

/// A real code never decodes to 0, and decodes to the newline exactly for
/// the newline code; the escape marker decodes to 0.
pub proof fn lemma_decoded_char(k: u8, no_spaces: bool)
    ensures
        k <= 14 ==> decoded_char(k, no_spaces) != 0 && (decoded_char(k, no_spaces) == 10 <==> k
            == 12),
        decoded_char(15, no_spaces) == 0,
{
}

/// A packer run ignores whether the deferred clear already happened.
proof fn lemma_packer_run_after_clear(m: PackerModel, s: Seq<u8>)
    requires
        s.len() > 0,
    ensures
        packer_run(m, s) == packer_run(packer_after_clear(m), s),
{
    let mc = packer_after_clear(m);
    assert(packer_after_clear(mc) =~= mc);
    assert(packer_step(m, s[0]) == packer_step(mc, s[0]));
}

/// Two raw characters inside a line: the packer consumes them in two
/// steps, appends exactly their packed bytes to its buffer, and reports
/// nothing.
proof fn lemma_packer_run_pair(m: PackerModel, c0: u8, c1: u8, rest: Seq<u8>)
    requires
        m.pending is None,
        m.pending_fullwidth is None,
        !m.strip_comments,
        !m.clear,
        c0 != 10,
        c1 != 10,
        m.no_spaces ==> c0 != 32 && c1 != 32,
        m.buf.len() + packed_pair_bytes(c0, c1, m.no_spaces).len() <= m.cap,
    ensures
        packer_run(m, seq![c0, c1] + rest) == packer_run(
            PackerModel { buf: m.buf + packed_pair_bytes(c0, c1, m.no_spaces), ..m },
            rest,
        ),
{
    let ns = m.no_spaces;
    let chunk = packed_pair_bytes(c0, c1, ns);
    let s = seq![c0, c1] + rest;
    assert(s[0] == c0);
    lemma_table_roundtrip(c0, ns);
    lemma_table_roundtrip(c1, ns);
    let st1 = packer_step(m, c0);
    assert(st1.1 == StepOut::Waiting);
    let s1 = s.drop_first();
    assert(s1 =~= seq![c1] + rest);
    assert(s1[0] == c1);
    let st2 = packer_step(st1.0, c1);
    let m2 = PackerModel { buf: m.buf + chunk, ..m };
    match (code_for_char(c0, ns), code_for_char(c1, ns)) {
        (Some(k0), Some(k1)) => {
            assert(m.buf + chunk =~= m.buf.push(packed_pair(k1, k0)));
        },
        (Some(k0), None) => {
            assert(m.buf + chunk =~= m.buf.push(packed_pair(15, k0)).push(c1));
        },
        (None, Some(k1)) => {
            assert(m.buf + chunk =~= m.buf.push(packed_pair(k1, 15)).push(c0));
        },
        (None, None) => {
            assert(m.buf + chunk =~= m.buf.push(packed_pair(15, 15)).push(c0).push(c1));
        },
    }
    assert(st2.1 == StepOut::Waiting);
    assert(st2.0 == m2);
    assert(s1.drop_first() =~= rest);
    assert(packer_run(m, s) == packer_run(st1.0, s1));
    assert(packer_run(st1.0, s1) == packer_run(m2, rest));
}

/// A line terminator with nothing pending: the newline is packed with
/// itself and the buffered line, which holds at least one earlier byte,
/// is reported.
proof fn lemma_packer_run_end0(m: PackerModel, rest: Seq<u8>)
    requires
        m.pending is None,
        m.pending_fullwidth is None,
        !m.strip_comments,
        !m.clear,
        m.buf.len() > 0,
        m.buf.len() + 1 <= m.cap,
    ensures
        packer_run(m, seq![10u8] + rest) == run_prepend(
            m.buf.push(packed_pair(12, 12)),
            packer_run(
                PackerModel { clear: true, buf: m.buf.push(packed_pair(12, 12)), ..m },
                rest,
            ),
        ),
{
    let s = seq![10u8] + rest;
    assert(s[0] == 10);
    let st = packer_step(m, 10);
    let buf2 = m.buf.push(packed_pair(12, 12));
    assert(st.0 == (PackerModel { clear: true, buf: buf2, ..m }));
    assert(buf2.len() > 1);
    assert(st.1 == StepOut::Line(buf2));
    assert(s.drop_first() =~= rest);
}

/// An odd last character closed by the terminator: both are folded into
/// one final packed unit and the whole buffered line is reported.
proof fn lemma_packer_run_end1(m: PackerModel, c0: u8, rest: Seq<u8>)
    requires
        m.pending is None,
        m.pending_fullwidth is None,
        !m.strip_comments,
        !m.clear,
        c0 != 10,
        m.no_spaces ==> c0 != 32,
        m.buf.len() + packed_line(seq![c0], m.no_spaces).len() <= m.cap,
    ensures
        packer_run(m, seq![c0, 10u8] + rest) == run_prepend(
            m.buf + packed_line(seq![c0], m.no_spaces),
            packer_run(
                PackerModel {
                    clear: true,
                    buf: m.buf + packed_line(seq![c0], m.no_spaces),
                    ..m
                },
                rest,
            ),
        ),
{
    let ns = m.no_spaces;
    let pl = packed_line(seq![c0], ns);
    assert(seq![c0][0] == c0);
    let s = seq![c0, 10u8] + rest;
    assert(s[0] == c0);
    lemma_table_roundtrip(c0, ns);
    let st1 = packer_step(m, c0);
    assert(st1.1 == StepOut::Waiting);
    let s1 = s.drop_first();
    assert(s1 =~= seq![10u8] + rest);
    assert(s1[0] == 10);
    let st2 = packer_step(st1.0, 10);
    let buf2 = m.buf + pl;
    match code_for_char(c0, ns) {
        Some(k0) => {
            assert(buf2 =~= m.buf.push(packed_pair(12, k0)));
        },
        None => {
            assert(buf2 =~= m.buf.push(packed_pair(12, 15)).push(c0));
        },
    }
    assert(st2.0 == (PackerModel { clear: true, buf: buf2, ..m }));
    assert(st2.1 == StepOut::Line(buf2));
    assert(s1.drop_first() =~= rest);
    assert(packer_run(m, s) == packer_run(st1.0, s1));
}

/// One whole newline-terminated line: the packer appends exactly the
/// packed bytes of the line to its buffer, reports the whole buffer, and
/// is back between pairs with the deferred clear armed.
proof fn lemma_packer_run_line(m: PackerModel, line: Seq<u8>, rest: Seq<u8>)
    requires
        m.pending is None,
        m.pending_fullwidth is None,
        !m.strip_comments,
        !m.clear,
        line.len() + m.buf.len() > 0,
        forall|j: int| 0 <= j < line.len() ==> line[j] != 10,
        m.no_spaces ==> forall|j: int| 0 <= j < line.len() ==> line[j] != 32,
        m.buf.len() + packed_line(line, m.no_spaces).len() <= m.cap,
    ensures
        packer_run(m, (line + seq![10u8]) + rest) == run_prepend(
            m.buf + packed_line(line, m.no_spaces),
            packer_run(
                PackerModel { clear: true, buf: m.buf + packed_line(line, m.no_spaces), ..m },
                rest,
            ),
        ),
    decreases line.len(),
{
    let ns = m.no_spaces;
    let pl = packed_line(line, ns);
    let s = (line + seq![10u8]) + rest;
    if line.len() == 0 {
        assert(s =~= seq![10u8] + rest);
        lemma_packer_run_end0(m, rest);
        assert(m.buf.push(packed_pair(12, 12)) =~= m.buf + pl);
    } else if line.len() == 1 {
        let c0 = line[0];
        assert(s =~= seq![c0, 10u8] + rest);
        assert(seq![c0] =~= line);
        lemma_packer_run_end1(m, c0, rest);
    } else {
        let c0 = line[0];
        let c1 = line[1];
        let tail = line.skip(2);
        let chunk = packed_pair_bytes(c0, c1, ns);
        assert(pl =~= chunk + packed_line(tail, ns));
        assert(s =~= seq![c0, c1] + ((tail + seq![10u8]) + rest));
        lemma_packer_run_pair(m, c0, c1, (tail + seq![10u8]) + rest);
        let m2 = PackerModel { buf: m.buf + chunk, ..m };
        assert(forall|j: int| 0 <= j < tail.len() ==> tail[j] == line[j + 2]);
        assert(m2.buf.len() + packed_line(tail, ns).len() <= m2.cap);
        lemma_packer_run_line(m2, tail, rest);
        assert(m2.buf + packed_line(tail, ns) =~= m.buf + pl);
    }
}

/// A stream of nonempty lines: the packer reports line after line, its
/// output is exactly the packed stream, and after at least one line it
/// rests with a reported line in its buffer, so that nothing remains.
pub proof fn lemma_packer_run_lines(m: PackerModel, lines: Seq<Seq<u8>>)
    requires
        m.pending is None,
        m.pending_fullwidth is None,
        !m.strip_comments,
        !m.clear,
        m.buf.len() == 0,
        lines_ok(lines, m.no_spaces, m.cap),
    ensures
        ({
            let r = packer_run(m, join_lines(lines));
            &&& r matches MachineRun::Complete { m: f, out } && out == packed_lines(
                lines,
                m.no_spaces,
            ) && (lines.len() > 0 ==> f.clear && f.buf.len() > 0)
        }),
    decreases lines.len(),
{
    let ns = m.no_spaces;
    if lines.len() == 0 {
        assert(packer_run(m, join_lines(lines)) == (MachineRun::Complete {
            m,
            out: Seq::<u8>::empty(),
        }));
    } else {
        let line0 = lines[0];
        let rest_lines = lines.drop_first();
        let suffix = join_lines(rest_lines);
        assert(join_lines(lines) =~= (line0 + seq![10u8]) + suffix);
        let pl0 = packed_line(line0, ns);
        assert(m.buf + pl0 =~= pl0);
        lemma_packer_run_line(m, line0, suffix);
        let m_end = PackerModel { clear: true, buf: pl0, ..m };
        assert(pl0.len() > 0);
        if rest_lines.len() == 0 {
            assert(suffix =~= Seq::<u8>::empty());
            assert(packer_run(m_end, suffix) == (MachineRun::Complete {
                m: m_end,
                out: Seq::<u8>::empty(),
            }));
            assert(pl0 + Seq::<u8>::empty() =~= pl0);
            assert(packed_lines(rest_lines, ns) =~= Seq::<u8>::empty());
            assert(packed_lines(lines, ns) =~= pl0 + packed_lines(rest_lines, ns));
            assert(packed_lines(lines, ns) =~= pl0);
        } else {
            assert(suffix.len() > 0);
            lemma_packer_run_after_clear(m_end, suffix);
            let mc = packer_after_clear(m_end);
            assert(mc == (PackerModel { clear: false, buf: Seq::<u8>::empty(), ..m_end }));
            assert(lines_ok(rest_lines, ns, m.cap)) by {
                assert(forall|i: int| #![auto] 0 <= i < rest_lines.len() ==> rest_lines[i]
                    == lines[i + 1]);
            }
            lemma_packer_run_lines(mc, rest_lines);
            let r2 = packer_run(mc, suffix);
            match r2 {
                MachineRun::Complete { m: f, out } => {
                    assert(pl0 + out =~= packed_lines(lines, ns));
                },
                MachineRun::Failed { err, out } => {
                    assert(false);
                },
            }
        }
    }
}

/// An unpacker run ignores whether the deferred clear already happened.
proof fn lemma_unpacker_run_after_clear(m: UnpackerModel, s: Seq<u8>)
    requires
        s.len() > 0,
    ensures
        unpacker_run(m, s) == unpacker_run(unpacker_after_clear(m), s),
{
    let mc = unpacker_after_clear(m);
    assert(unpacker_after_clear(mc) =~= mc);
    assert(unpacker_step(m, s[0]) == unpacker_step(mc, s[0]));
}

/// The packed bytes of one pair of raw characters inside a line: the
/// enabled unpacker consumes them, appends exactly the two characters to
/// its buffer in their original order, and reports nothing — in
/// particular the double escape, whose packed byte equals the signal
/// byte, is consumed as data and never dispatched as a command.
pub proof fn lemma_unpacker_run_pair(m: UnpackerModel, c0: u8, c1: u8, rest: Seq<u8>)
    requires
        m.state is Enabled,
        !m.clear,
        c0 != 10,
        c1 != 10,
        c0 != 255,
        c1 != 255,
        m.buf.len() + 2 <= m.cap,
    ensures
        unpacker_run(m, packed_pair_bytes(c0, c1, m.no_spaces) + rest) == unpacker_run(
            UnpackerModel { buf: m.buf + seq![c0, c1], ..m },
            rest,
        ),
{
    let ns = m.no_spaces;
    let chunk = packed_pair_bytes(c0, c1, ns);
    let s = chunk + rest;
    let m_done = UnpackerModel { buf: m.buf + seq![c0, c1], ..m };
    lemma_table_roundtrip(c0, ns);
    lemma_table_roundtrip(c1, ns);
    match (code_for_char(c0, ns), code_for_char(c1, ns)) {
        (Some(k0), Some(k1)) => {
            lemma_packed_pair(k1, k0);
            lemma_decoded_char(k0, ns);
            lemma_decoded_char(k1, ns);
            let b = packed_pair(k1, k0);
            assert(s[0] == b);
            let st1 = unpacker_step(m, b);
            assert(st1.1 == StepOut::Waiting);
            assert(st1.0 == (UnpackerModel { buf: m.buf.push(c0).push(c1), ..m }));
            assert(m.buf.push(c0).push(c1) =~= m.buf + seq![c0, c1]);
            assert(s.drop_first() =~= rest);
            assert(unpacker_run(m, s) == unpacker_run(m_done, rest));
        },
        (Some(k0), None) => {
            lemma_packed_pair(15, k0);
            lemma_decoded_char(k0, ns);
            lemma_decoded_char(15, ns);
            let b = packed_pair(15, k0);
            assert(s[0] == b);
            let st1 = unpacker_step(m, b);
            assert(st1.1 == StepOut::Waiting);
            let m1 = UnpackerModel {
                state: UnpackerState::RightFullWidthByte,
                buf: m.buf.push(c0),
                ..m
            };
            assert(st1.0 == m1);
            let s1 = s.drop_first();
            assert(s1 =~= seq![c1] + rest);
            assert(s1[0] == c1);
            let st2 = unpacker_step(m1, c1);
            assert(st2.1 == StepOut::Waiting);
            assert(st2.0 == (UnpackerModel { state: UnpackerState::Enabled, buf: m.buf.push(
                c0,
            ).push(c1), ..m }));
            assert(m.buf.push(c0).push(c1) =~= m.buf + seq![c0, c1]);
            assert(st2.0 == m_done);
            assert(s1.drop_first() =~= rest);
            assert(unpacker_run(m, s) == unpacker_run(m1, s1));
            assert(unpacker_run(m1, s1) == unpacker_run(m_done, rest));
        },
        (None, Some(k1)) => {
            lemma_packed_pair(k1, 15);
            lemma_decoded_char(k1, ns);
            lemma_decoded_char(15, ns);
            let b = packed_pair(k1, 15);
            assert(s[0] == b);
            let st1 = unpacker_step(m, b);
            assert(st1.1 == StepOut::Waiting);
            let buf1 = m.buf.push(0).push(c1);
            let m1 = UnpackerModel { state: UnpackerState::LeftFullWidthByte, buf: buf1, ..m };
            assert(st1.0 == m1);
            let s1 = s.drop_first();
            assert(s1 =~= seq![c0] + rest);
            assert(s1[0] == c0);
            let st2 = unpacker_step(m1, c0);
            let buf2 = buf1.update(buf1.len() - 2, c0);
            assert(buf2 =~= m.buf + seq![c0, c1]);
            assert(buf2[buf2.len() - 1] == c1);
            assert(st2.1 == StepOut::Waiting);
            assert(st2.0 == (UnpackerModel { state: UnpackerState::Enabled, buf: buf2, ..m }));
            assert(st2.0 == m_done);
            assert(s1.drop_first() =~= rest);
            assert(unpacker_run(m, s) == unpacker_run(m1, s1));
            assert(unpacker_run(m1, s1) == unpacker_run(m_done, rest));
        },
        (None, None) => {
            lemma_packed_pair(15, 15);
            let b = packed_pair(15, 15);
            assert(b == 255);
            assert(s[0] == b);
            let st1 = unpacker_step(m, b);
            assert(st1.1 == StepOut::Waiting);
            let m1 = UnpackerModel { state: UnpackerState::FirstCommandByte, ..m };
            assert(st1.0 == m1);
            let s1 = s.drop_first();
            assert(s1 =~= seq![c0, c1] + rest);
            assert(s1[0] == c0);
            let st2 = unpacker_step(m1, c0);
            assert(st2.1 == StepOut::Waiting);
            let m2 = UnpackerModel {
                state: UnpackerState::RightFullWidthByte,
                buf: m.buf.push(c0),
                ..m
            };
            assert(st2.0 == m2);
            let s2 = s1.drop_first();
            assert(s2 =~= seq![c1] + rest);
            assert(s2[0] == c1);
            let st3 = unpacker_step(m2, c1);
            assert(st3.1 == StepOut::Waiting);
            assert(m.buf.push(c0).push(c1) =~= m.buf + seq![c0, c1]);
            assert(st3.0 == m_done);
            assert(s2.drop_first() =~= rest);
            assert(unpacker_run(m, s) == unpacker_run(m1, s1));
            assert(unpacker_run(m1, s1) == unpacker_run(m2, s2));
            assert(unpacker_run(m2, s2) == unpacker_run(m_done, rest));
        },
    }
}

/// The compacted blank terminator: the enabled unpacker pushes a single
/// newline and reports the buffered line, which holds at least one
/// earlier byte.
proof fn lemma_unpacker_run_end0(m: UnpackerModel, rest: Seq<u8>)
    requires
        m.state is Enabled,
        !m.clear,
        m.buf.len() > 0,
        m.buf.len() + 1 <= m.cap,
    ensures
        unpacker_run(m, seq![packed_pair(12, 12)] + rest) == run_prepend(
            m.buf.push(10),
            unpacker_run(UnpackerModel { clear: true, buf: m.buf.push(10), ..m }, rest),
        ),
{
    lemma_packed_pair(12, 12);
    let b = packed_pair(12, 12);
    let s = seq![b] + rest;
    assert(s[0] == b);
    let st = unpacker_step(m, b);
    assert(st.1 == StepOut::Line(m.buf.push(10)));
    assert(st.0 == (UnpackerModel { clear: true, buf: m.buf.push(10), ..m }));
    assert(s.drop_first() =~= rest);
}

/// The packed end of a line with an odd last character: the enabled
/// unpacker pushes that character and the newline and reports the whole
/// buffered line.
proof fn lemma_unpacker_run_end1(m: UnpackerModel, c0: u8, rest: Seq<u8>)
    requires
        m.state is Enabled,
        !m.clear,
        c0 != 10,
        c0 != 255,
        m.buf.len() + 2 <= m.cap,
    ensures
        unpacker_run(m, packed_line(seq![c0], m.no_spaces) + rest) == run_prepend(
            m.buf + seq![c0, 10u8],
            unpacker_run(
                UnpackerModel { clear: true, buf: m.buf + seq![c0, 10u8], ..m },
                rest,
            ),
        ),
{
    let ns = m.no_spaces;
    assert(seq![c0][0] == c0);
    let pl = packed_line(seq![c0], ns);
    let s = pl + rest;
    let buf2 = m.buf + seq![c0, 10u8];
    lemma_table_roundtrip(c0, ns);
    match code_for_char(c0, ns) {
        Some(k0) => {
            lemma_packed_pair(12, k0);
            lemma_decoded_char(k0, ns);
            let b = packed_pair(12, k0);
            assert(s[0] == b);
            let st = unpacker_step(m, b);
            assert(m.buf.push(c0).push(10) =~= buf2);
            assert(m.buf.push(c0).push(10).len() > 1);
            assert(st.1 == StepOut::Line(m.buf.push(c0).push(10)));
            assert(st.0 == (UnpackerModel { clear: true, buf: buf2, ..m }));
            assert(s.drop_first() =~= rest);
        },
        None => {
            lemma_packed_pair(12, 15);
            lemma_decoded_char(15, ns);
            let b = packed_pair(12, 15);
            assert(s[0] == b);
            let st1 = unpacker_step(m, b);
            assert(st1.1 == StepOut::Waiting);
            let buf1 = m.buf.push(0).push(10);
            let m1 = UnpackerModel { state: UnpackerState::LeftFullWidthByte, buf: buf1, ..m };
            assert(st1.0 == m1);
            let s1 = s.drop_first();
            assert(s1 =~= seq![c0] + rest);
            assert(s1[0] == c0);
            let st2 = unpacker_step(m1, c0);
            let bufu = buf1.update(buf1.len() - 2, c0);
            assert(bufu =~= buf2);
            assert(bufu[bufu.len() - 1] == 10);
            assert(st2.1 == StepOut::Line(bufu));
            assert(st2.0 == (UnpackerModel {
                state: UnpackerState::Enabled,
                clear: true,
                buf: bufu,
                ..m
            }));
            assert(s1.drop_first() =~= rest);
            assert(unpacker_run(m, s) == unpacker_run(m1, s1));
        },
    }
}

/// The packed bytes of one whole line: the enabled unpacker appends
/// exactly the raw line and its terminator to its buffer, reports the
/// whole buffer, and is back in the enabled state with the deferred
/// clear armed.
proof fn lemma_unpacker_run_line(m: UnpackerModel, line: Seq<u8>, rest: Seq<u8>)
    requires
        m.state is Enabled,
        !m.clear,
        line.len() + m.buf.len() > 0,
        forall|j: int| 0 <= j < line.len() ==> line[j] != 10 && line[j] != 255,
        m.buf.len() + line.len() + 1 <= m.cap,
    ensures
        unpacker_run(m, packed_line(line, m.no_spaces) + rest) == run_prepend(
            m.buf + line + seq![10u8],
            unpacker_run(
                UnpackerModel { clear: true, buf: m.buf + line + seq![10u8], ..m },
                rest,
            ),
        ),
    decreases line.len(),
{
    let ns = m.no_spaces;
    let pl = packed_line(line, ns);
    if line.len() == 0 {
        lemma_unpacker_run_end0(m, rest);
        assert(pl + rest =~= seq![packed_pair(12, 12)] + rest);
        assert(m.buf.push(10) =~= m.buf + line + seq![10u8]);
    } else if line.len() == 1 {
        let c0 = line[0];
        assert(seq![c0] =~= line);
        lemma_unpacker_run_end1(m, c0, rest);
        assert(m.buf + seq![c0, 10u8] =~= m.buf + line + seq![10u8]);
    } else {
        let c0 = line[0];
        let c1 = line[1];
        let tail = line.skip(2);
        let chunk = packed_pair_bytes(c0, c1, ns);
        assert(pl =~= chunk + packed_line(tail, ns));
        assert(pl + rest =~= chunk + (packed_line(tail, ns) + rest));
        lemma_unpacker_run_pair(m, c0, c1, packed_line(tail, ns) + rest);
        let m2 = UnpackerModel { buf: m.buf + seq![c0, c1], ..m };
        assert(forall|j: int| 0 <= j < tail.len() ==> tail[j] == line[j + 2]);
        lemma_unpacker_run_line(m2, tail, rest);
        assert(m2.buf + tail + seq![10u8] =~= m.buf + line + seq![10u8]);
    }
}

/// The packed stream of a text: the enabled unpacker reports the raw
/// lines one after the other, its output is exactly the original text,
/// and after at least one line it rests with a reported line in its
/// buffer, so that nothing remains.
pub proof fn lemma_unpacker_run_lines(m: UnpackerModel, lines: Seq<Seq<u8>>)
    requires
        m.state is Enabled,
        !m.clear,
        m.buf.len() == 0,
        lines_ok(lines, m.no_spaces, m.cap),
    ensures
        ({
            let r = unpacker_run(m, packed_lines(lines, m.no_spaces));
            &&& r matches MachineRun::Complete { m: f, out } && out == join_lines(lines) && (
            lines.len() > 0 ==> f.clear && f.buf.len() > 0)
        }),
    decreases lines.len(),
{
    let ns = m.no_spaces;
    if lines.len() == 0 {
        assert(unpacker_run(m, packed_lines(lines, ns)) == (MachineRun::Complete {
            m,
            out: Seq::<u8>::empty(),
        }));
        assert(join_lines(lines) =~= Seq::<u8>::empty());
    } else {
        let line0 = lines[0];
        let rest_lines = lines.drop_first();
        let suffix = packed_lines(rest_lines, ns);
        assert(packed_lines(lines, ns) =~= packed_line(line0, ns) + suffix);
        let raw0 = line0 + seq![10u8];
        assert(m.buf + line0 + seq![10u8] =~= raw0);
        lemma_unpacker_run_line(m, line0, suffix);
        let m_end = UnpackerModel { clear: true, buf: raw0, ..m };
        assert(raw0.len() > 0);
        if rest_lines.len() == 0 {
            assert(suffix =~= Seq::<u8>::empty());
            assert(unpacker_run(m_end, suffix) == (MachineRun::Complete {
                m: m_end,
                out: Seq::<u8>::empty(),
            }));
            assert(raw0 + Seq::<u8>::empty() =~= raw0);
            assert(join_lines(rest_lines) =~= Seq::<u8>::empty());
            assert(join_lines(lines) =~= raw0 + join_lines(rest_lines));
            assert(join_lines(lines) =~= raw0);
        } else {
            assert(lines_ok(rest_lines, ns, m.cap)) by {
                assert(forall|i: int| #![auto] 0 <= i < rest_lines.len() ==> rest_lines[i]
                    == lines[i + 1]);
            }
            assert(suffix.len() > 0) by {
                assert(rest_lines[0].len() > 0);
                assert(packed_line(rest_lines[0], ns).len() > 0);
            }
            lemma_unpacker_run_after_clear(m_end, suffix);
            let mc = unpacker_after_clear(m_end);
            assert(mc == (UnpackerModel { clear: false, buf: Seq::<u8>::empty(), ..m_end }));
            lemma_unpacker_run_lines(mc, rest_lines);
            let r2 = unpacker_run(mc, suffix);
            match r2 {
                MachineRun::Complete { m: f, out } => {
                    assert(raw0 + out =~= join_lines(lines));
                },
                MachineRun::Failed { err, out } => {
                    assert(false);
                },
            }
        }
    }
}

/// The header: the three header bytes enable decoding, and the optional
/// three-byte no-spaces command then switches the table; neither leaves
/// anything in the buffer or reports a line.
proof fn lemma_unpacker_run_header(cap: nat, no_spaces: bool, rest: Seq<u8>)
    ensures
        unpacker_run(unpacker_init(cap), header_seq(no_spaces) + rest) == unpacker_run(
            UnpackerModel {
                state: UnpackerState::Enabled,
                no_spaces: no_spaces,
                clear: false,
                buf: Seq::empty(),
                cap: cap,
            },
            rest,
        ),
{
    let m0 = unpacker_init(cap);
    let s = header_seq(no_spaces) + rest;
    assert(s[0] == 255);
    let m1 = UnpackerModel { state: UnpackerState::FirstCommandByte, ..m0 };
    assert(unpacker_step(m0, 255) == (m1, StepOut::Waiting));
    let s1 = s.drop_first();
    assert(s1[0] == 255);
    let m2 = UnpackerModel { state: UnpackerState::SecondCommandByte, ..m0 };
    assert(unpacker_step(m1, 255) == (m2, StepOut::Waiting));
    let s2 = s1.drop_first();
    assert(s2[0] == 251);
    let m3 = UnpackerModel { state: UnpackerState::Enabled, ..m0 };
    assert(unpacker_step(m2, 251) == (m3, StepOut::Waiting));
    let s3 = s2.drop_first();
    assert(unpacker_run(m0, s) == unpacker_run(m1, s1));
    assert(unpacker_run(m1, s1) == unpacker_run(m2, s2));
    assert(unpacker_run(m2, s2) == unpacker_run(m3, s3));
    if no_spaces {
        assert(s3[0] == 255);
        let m4 = UnpackerModel { state: UnpackerState::FirstCommandByte, ..m0 };
        assert(unpacker_step(m3, 255) == (m4, StepOut::Waiting));
        let s4 = s3.drop_first();
        assert(s4[0] == 255);
        let m5 = UnpackerModel { state: UnpackerState::SecondCommandByte, ..m0 };
        assert(unpacker_step(m4, 255) == (m5, StepOut::Waiting));
        let s5 = s4.drop_first();
        assert(s5[0] == 247);
        let m6 = UnpackerModel { state: UnpackerState::Enabled, no_spaces: true, ..m0 };
        assert(unpacker_step(m5, 247) == (m6, StepOut::Waiting));
        let s6 = s5.drop_first();
        assert(s6 =~= rest);
        assert(unpacker_run(m3, s3) == unpacker_run(m4, s4));
        assert(unpacker_run(m4, s4) == unpacker_run(m5, s5));
        assert(unpacker_run(m5, s5) == unpacker_run(m6, s6));
    } else {
        assert(s3 =~= rest);
    }
}

/// Unpacking undoes packing: packing a text of nonempty lines produces
/// exactly its packed stream and leaves nothing behind, and unpacking
/// that stream behind the header returns exactly the original text and
/// leaves nothing behind — with the same mode on both sides, comment
/// stripping off, and (in no-spaces mode) no spaces in the text.
pub proof fn lemma_round_trip(lines: Seq<Seq<u8>>, no_spaces: bool, cap: nat)
    requires
        lines_ok(lines, no_spaces, cap),
    ensures
        ({
            let r = packer_run(packer_init(false, no_spaces, cap), join_lines(lines));
            &&& r matches MachineRun::Complete { m: f, out } && out == packed_lines(
                lines,
                no_spaces,
            ) && (lines.len() > 0 ==> f.clear && f.buf.len() > 0)
        }),
        ({
            let r = unpacker_run(
                unpacker_init(cap),
                header_seq(no_spaces) + packed_lines(lines, no_spaces),
            );
            &&& r matches MachineRun::Complete { m: f, out } && out == join_lines(lines) && (
            lines.len() > 0 ==> f.clear && f.buf.len() > 0)
        }),
{
    lemma_packer_run_lines(packer_init(false, no_spaces, cap), lines);
    lemma_unpacker_run_header(cap, no_spaces, packed_lines(lines, no_spaces));
    let me = UnpackerModel {
        state: UnpackerState::Enabled,
        no_spaces: no_spaces,
        clear: false,
        buf: Seq::empty(),
        cap: cap,
    };
    lemma_unpacker_run_lines(me, lines);
}

/// What a text must look like to pass through the disabled unpacker:
/// lines may be empty here, but still hold no terminator or signal byte
/// and fit the buffer with their terminator.
pub open spec fn passthrough_ok(lines: Seq<Seq<u8>>, cap: nat) -> bool {
    forall|i: int|
        #![auto]
        0 <= i < lines.len() ==> {
            &&& (forall|j: int| #![auto] 0 <= j < lines[i].len() ==> lines[i][j] != 10 && lines[i][j] != 255)
            &&& lines[i].len() + 1 <= cap
        }
}

/// One raw newline-terminated line through the disabled unpacker: every
/// byte is buffered as it is and the terminator reports the line.
proof fn lemma_unpacker_run_disabled_line(m: UnpackerModel, line: Seq<u8>, rest: Seq<u8>)
    requires
        m.state is Disabled,
        !m.clear,
        forall|j: int| 0 <= j < line.len() ==> line[j] != 10 && line[j] != 255,
        m.buf.len() + line.len() + 1 <= m.cap,
    ensures
        unpacker_run(m, (line + seq![10u8]) + rest) == run_prepend(
            m.buf + line + seq![10u8],
            unpacker_run(
                UnpackerModel { clear: true, buf: m.buf + line + seq![10u8], ..m },
                rest,
            ),
        ),
    decreases line.len(),
{
    let s = (line + seq![10u8]) + rest;
    if line.len() == 0 {
        assert(s[0] == 10);
        let st = unpacker_step(m, 10);
        assert(st.1 == StepOut::Line(m.buf.push(10)));
        assert(st.0 == (UnpackerModel { clear: true, buf: m.buf.push(10), ..m }));
        assert(m.buf.push(10) =~= m.buf + line + seq![10u8]);
        assert(s.drop_first() =~= rest);
    } else {
        let c0 = line[0];
        assert(s[0] == c0);
        let st = unpacker_step(m, c0);
        assert(st.1 == StepOut::Waiting);
        let m1 = UnpackerModel { buf: m.buf.push(c0), ..m };
        assert(st.0 == m1);
        let tail = line.drop_first();
        assert(forall|j: int| 0 <= j < tail.len() ==> tail[j] == line[j + 1]);
        let s1 = s.drop_first();
        assert(s1 =~= (tail + seq![10u8]) + rest);
        lemma_unpacker_run_disabled_line(m1, tail, rest);
        assert(m1.buf + tail + seq![10u8] =~= m.buf + line + seq![10u8]);
        assert(unpacker_run(m, s) == unpacker_run(m1, s1));
    }
}

/// Without a header the unpacker passes its input through: fed a
/// terminated text it stays disabled, keeps its mode flag, and its output
/// is exactly its input.
pub proof fn lemma_disabled_passthrough(m: UnpackerModel, lines: Seq<Seq<u8>>)
    requires
        m.state is Disabled,
        !m.clear,
        m.buf.len() == 0,
        passthrough_ok(lines, m.cap),
    ensures
        ({
            let r = unpacker_run(m, join_lines(lines));
            &&& r matches MachineRun::Complete { m: f, out } && out == join_lines(lines)
                && f.state is Disabled && f.no_spaces == m.no_spaces
        }),
    decreases lines.len(),
{
    if lines.len() == 0 {
        assert(unpacker_run(m, join_lines(lines)) == (MachineRun::Complete {
            m,
            out: Seq::<u8>::empty(),
        }));
        assert(join_lines(lines) =~= Seq::<u8>::empty());
    } else {
        let line0 = lines[0];
        let rest_lines = lines.drop_first();
        let suffix = join_lines(rest_lines);
        assert(join_lines(lines) =~= (line0 + seq![10u8]) + suffix);
        let raw0 = line0 + seq![10u8];
        assert(m.buf + line0 + seq![10u8] =~= raw0);
        lemma_unpacker_run_disabled_line(m, line0, suffix);
        let m_end = UnpackerModel { clear: true, buf: raw0, ..m };
        assert(passthrough_ok(rest_lines, m.cap)) by {
            assert(forall|i: int| #![auto] 0 <= i < rest_lines.len() ==> rest_lines[i] == lines[i
                + 1]);
        }
        if rest_lines.len() == 0 {
            assert(suffix =~= Seq::<u8>::empty());
            assert(unpacker_run(m_end, suffix) == (MachineRun::Complete {
                m: m_end,
                out: Seq::<u8>::empty(),
            }));
            assert(raw0 + Seq::<u8>::empty() =~= raw0);
            assert(join_lines(lines) =~= raw0);
        } else {
            assert(suffix.len() > 0);
            lemma_unpacker_run_after_clear(m_end, suffix);
            let mc = unpacker_after_clear(m_end);
            assert(mc == (UnpackerModel { clear: false, buf: Seq::<u8>::empty(), ..m_end }));
            lemma_disabled_passthrough(mc, rest_lines);
            let r2 = unpacker_run(mc, suffix);
            match r2 {
                MachineRun::Complete { m: f, out } => {
                    assert(raw0 + out =~= join_lines(lines));
                },
                MachineRun::Failed { err, out } => {
                    assert(false);
                },
            }
        }
    }
}

/// Until a header is encountered the unpacker's output equals its input
/// exactly: a terminated text, then the header (with the no-spaces
/// command when that mode is chosen), then a packed text decode to the
/// raw prologue followed by the raw text.
pub proof fn lemma_passthrough_until_header(
    pre: Seq<Seq<u8>>,
    lines: Seq<Seq<u8>>,
    no_spaces: bool,
    cap: nat,
)
    requires
        passthrough_ok(pre, cap),
        lines_ok(lines, no_spaces, cap),
    ensures
        ({
            let r = unpacker_run(
                unpacker_init(cap),
                join_lines(pre) + (header_seq(no_spaces) + packed_lines(lines, no_spaces)),
            );
            &&& r matches MachineRun::Complete { m: f, out } && out == join_lines(pre)
                + join_lines(lines)
        }),
    decreases pre.len(),
{
    let m0 = unpacker_init(cap);
    let ns = no_spaces;
    let packed_part = header_seq(ns) + packed_lines(lines, ns);
    if pre.len() == 0 {
        assert(join_lines(pre) =~= Seq::<u8>::empty());
        assert(join_lines(pre) + packed_part =~= packed_part);
        lemma_unpacker_run_header(cap, ns, packed_lines(lines, ns));
        let me = UnpackerModel {
            state: UnpackerState::Enabled,
            no_spaces: ns,
            clear: false,
            buf: Seq::empty(),
            cap: cap,
        };
        lemma_unpacker_run_lines(me, lines);
        let r2 = unpacker_run(me, packed_lines(lines, ns));
        match r2 {
            MachineRun::Complete { m: f, out } => {
                assert(join_lines(pre) + out =~= out);
            },
            MachineRun::Failed { err, out } => {
                assert(false);
            },
        }
    } else {
        let line0 = pre[0];
        let pre_rest = pre.drop_first();
        let suffix = join_lines(pre_rest) + packed_part;
        assert(join_lines(pre) + packed_part =~= (line0 + seq![10u8]) + suffix);
        let raw0 = line0 + seq![10u8];
        assert(m0.buf + line0 + seq![10u8] =~= raw0);
        lemma_unpacker_run_disabled_line(m0, line0, suffix);
        let m_end = UnpackerModel { clear: true, buf: raw0, ..m0 };
        assert(suffix.len() > 0);
        lemma_unpacker_run_after_clear(m_end, suffix);
        assert(unpacker_after_clear(m_end) =~= m0);
        assert(passthrough_ok(pre_rest, cap)) by {
            assert(forall|i: int| #![auto] 0 <= i < pre_rest.len() ==> pre_rest[i] == pre[i + 1]);
        }
        lemma_passthrough_until_header(pre_rest, lines, ns, cap);
        let r2 = unpacker_run(m0, suffix);
        match r2 {
            MachineRun::Complete { m: f, out } => {
                assert(raw0 + out =~= join_lines(pre) + join_lines(lines)) by {
                    assert(out == join_lines(pre_rest) + join_lines(lines));
                    assert(join_lines(pre) =~= raw0 + join_lines(pre_rest));
                }
            },
            MachineRun::Failed { err, out } => {
                assert(false);
            },
        }
    }
}

/// A full buffer fails, it does not overwrite: a disabled unpacker whose
/// buffer is at capacity reports `BufferFull` on the next data byte and
/// its state, mode and buffer are left exactly as they were.
pub proof fn lemma_unpacker_buffer_exhaustion(m: UnpackerModel, b: u8)
    requires
        m.state is Disabled,
        !m.clear,
        m.buf.len() == m.cap,
        b != 255,
    ensures
        unpacker_step(m, b) == (m, StepOut::Fail(MeatPackError::BufferFull)),
{
}

/// The packer counterpart: when the buffer is at capacity, the byte that
/// would complete a packed unit fails with `BufferFull` and the machine
/// is left exactly as it was.
pub proof fn lemma_packer_buffer_exhaustion(m: PackerModel)
    requires
        m.pending is None,
        !m.strip_comments,
        !m.clear,
        m.buf.len() == m.cap,
    ensures
        packer_step(m, 10) == (m, StepOut::Fail(MeatPackError::BufferFull)),
{
}

/// A lone terminator with nothing accumulated reports no line: the packed
/// blank terminator goes to the buffer and the deferred clear is armed,
/// but the call only reports waiting.
pub proof fn lemma_blank_line_suppression(m: PackerModel)
    requires
        m.pending is None,
        !m.strip_comments,
        !m.clear,
        m.buf.len() == 0,
        m.cap > 0,
    ensures
        packer_step(m, 10).1 == StepOut::Waiting,
        packer_step(m, 10).0.clear,
{
}

/// The in-band mode toggle moves one code point between two characters:
/// code `0b1011` encodes `E` exactly in no-spaces mode and the space
/// exactly outside it, and the character the mode disowns loses its code
/// entirely.
pub proof fn lemma_no_spaces_table()
    ensures
        code_for_char(69, true) == Some(11u8),
        code_for_char(69, false) is None,
        code_for_char(32, false) == Some(11u8),
        code_for_char(32, true) is None,
        decoded_char(11, true) == 69,
        decoded_char(11, false) == 32,
{
}

} // verus!
