//! Turns the raw byte stream of a pseudo-terminal into plain text lines:
//! escape sequences are dropped, a carriage return lets the rest of the line
//! overwrite what came before it, and invalid UTF-8 becomes U+FFFD.

use vstd::prelude::*;
use vstd::utf8::*;

verus! {

/// Where the sanitizer stands inside an escape sequence.
#[derive(Clone, Copy, PartialEq, Eq, Structural)]
pub enum EscapeState {
    Normal,
    Esc,
    Csi,
    Osc,
    OscEsc,
}

/// The abstract state of a sanitizer: the pending (not yet terminated) line,
/// whether a carriage return is waiting to take effect, and the escape state.
pub struct SanitizerState {
    pub line: Seq<u8>,
    pub pending_cr: bool,
    pub escape: EscapeState,
}

pub struct PtySanitizer {
    line_buffer: Vec<u8>,
    pending_cr: bool,
    state: EscapeState,
}

impl View for PtySanitizer {
    type V = SanitizerState;

    closed spec fn view(&self) -> SanitizerState {
        SanitizerState { line: self.line_buffer@, pending_cr: self.pending_cr, escape: self.state }
    }
}

/// The state of a fresh sanitizer.
pub open spec fn initial_state() -> SanitizerState {
    SanitizerState { line: seq![], pending_cr: false, escape: EscapeState::Normal }
}

pub const ESC: char = '\u{1b}';

pub open spec fn is_printable_spec(r: char) -> bool {
    r >= '\u{20}' && r != '\u{7f}'
}

/// The replacement character that stands for a byte that starts no valid
/// UTF-8 sequence.
pub open spec fn replacement_char() -> char {
    '\u{FFFD}'
}

/// The character at the start of `b` and the number of bytes it takes:
/// a well-formed UTF-8 sequence is decoded, anything else counts as one
/// byte that stands for U+FFFD.
pub open spec fn first_rune(b: Seq<u8>) -> (char, int) {
    if valid_first_scalar(b) {
        (decode_first_scalar(b) as char, length_of_first_scalar(b))
    } else {
        (replacement_char(), 1)
    }
}

/// The characters that a sanitizer reads from a byte sequence.
pub open spec fn runes(b: Seq<u8>) -> Seq<char>
    decreases b.len(),
{
    if b.len() == 0 {
        seq![]
    } else {
        let (c, n) = first_rune(b);
        if 1 <= n <= b.len() {
            seq![c] + runes(b.subrange(n, b.len() as int))
        } else {
            seq![]
        }
    }
}

/// A character that is neither an escape, a carriage return nor a newline
/// goes into the pending line; a newline ends the line; a carriage return
/// makes the next character (other than a newline) start the line over.
/// Yields the new line, the new carriage-return flag and the output.
pub open spec fn visible_step(line: Seq<u8>, pending_cr: bool, r: char) -> (Seq<u8>, bool, Seq<u8>) {
    if pending_cr && r == '\n' {
        (seq![], false, line.push(0x0Au8))
    } else {
        let line0 = if pending_cr {
            Seq::<u8>::empty()
        } else {
            line
        };
        if r == '\r' {
            (line0, true, seq![])
        } else if r == '\n' {
            (seq![], false, line0.push(0x0Au8))
        } else {
            (line0 + encode_scalar(r as u32), false, seq![])
        }
    }
}

/// The visible step applied to a state, with the escape state set to `escape`.
pub open spec fn visible_state(st: SanitizerState, r: char, escape: EscapeState) -> (SanitizerState, Seq<u8>) {
    let (line, pcr, out) = visible_step(st.line, st.pending_cr, r);
    (SanitizerState { line: line, pending_cr: pcr, escape: escape }, out)
}

/// One character read in a given state: the new state and the output.
pub open spec fn rune_step(st: SanitizerState, r: char) -> (SanitizerState, Seq<u8>) {
    match st.escape {
        EscapeState::Normal => {
            if r == ESC {
                (SanitizerState { escape: EscapeState::Esc, ..st }, seq![])
            } else {
                visible_state(st, r, EscapeState::Normal)
            }
        },
        EscapeState::Esc => {
            if r == '[' {
                (SanitizerState { escape: EscapeState::Csi, ..st }, seq![])
            } else if r == ']' {
                (SanitizerState { escape: EscapeState::Osc, ..st }, seq![])
            } else if r != ESC && is_printable_spec(r) {
                visible_state(st, r, EscapeState::Normal)
            } else {
                (SanitizerState { escape: EscapeState::Normal, ..st }, seq![])
            }
        },
        EscapeState::Csi => {
            if '@' <= r && r <= '~' {
                (SanitizerState { escape: EscapeState::Normal, ..st }, seq![])
            } else {
                (st, seq![])
            }
        },
        EscapeState::Osc => {
            if r == '\u{07}' {
                (SanitizerState { escape: EscapeState::Normal, ..st }, seq![])
            } else if r == ESC {
                (SanitizerState { escape: EscapeState::OscEsc, ..st }, seq![])
            } else {
                (st, seq![])
            }
        },
        EscapeState::OscEsc => {
            if r == '\\' {
                (SanitizerState { escape: EscapeState::Normal, ..st }, seq![])
            } else {
                (SanitizerState { escape: EscapeState::Osc, ..st }, seq![])
            }
        },
    }
}

/// A sequence of characters read one after the other: the final state and
/// everything output on the way.
pub open spec fn run_runes(st: SanitizerState, rs: Seq<char>) -> (SanitizerState, Seq<u8>)
    decreases rs.len(),
{
    if rs.len() == 0 {
        (st, seq![])
    } else {
        let (s1, o1) = rune_step(st, rs[0]);
        let (s2, o2) = run_runes(s1, rs.drop_first());
        (s2, o1 + o2)
    }
}

/// A line that can be pending: valid UTF-8 with no escape, carriage return or
/// newline byte in it.
pub open spec fn clean_line(line: Seq<u8>) -> bool {
    &&& valid_utf8(line)
    &&& forall|i: int| 0 <= i < line.len() ==> line[i] != 0x1Bu8 && line[i] != 0x0Du8 && line[i] != 0x0Au8
}

/// Output that is valid UTF-8 and holds no escape and no carriage return byte.
pub open spec fn clean_output(out: Seq<u8>) -> bool {
    &&& valid_utf8(out)
    &&& forall|i: int| 0 <= i < out.len() ==> out[i] != 0x1Bu8 && out[i] != 0x0Du8
}

/// A character that ends a CSI escape sequence.
pub open spec fn csi_final(c: char) -> bool {
    '@' <= c && c <= '~'
}

/// A complete CSI sequence: ESC, `[`, parameter characters, a final character.
pub open spec fn csi_sequence(params: Seq<char>, fin: char) -> Seq<char> {
    seq![ESC, '['] + params + seq![fin]
}

/// A complete OSC sequence ended by BEL: ESC, `]`, text, BEL.
pub open spec fn osc_sequence(body: Seq<char>) -> Seq<char> {
    seq![ESC, ']'] + body + seq!['\u{07}']
}

/// Inside a CSI sequence, parameters pass without output and the final
/// character returns to normal text, leaving everything else as it was.
proof fn lemma_csi_rest(st: SanitizerState, params: Seq<char>, fin: char)
    requires
        st.escape == EscapeState::Csi,
        forall|i: int| 0 <= i < params.len() ==> !csi_final(#[trigger] params[i]),
        csi_final(fin),
    ensures
        run_runes(st, params + seq![fin]) == (SanitizerState { escape: EscapeState::Normal, ..st }, Seq::<u8>::empty()),
    decreases params.len(),
{
    let rs = params + seq![fin];
    let done = SanitizerState { escape: EscapeState::Normal, ..st };
    if params.len() == 0 {
        assert(rs =~= seq![fin]);
        assert(rs[0] == fin);
        assert(rune_step(st, fin) == (done, Seq::<u8>::empty()));
        assert(rs.drop_first() =~= Seq::<char>::empty());
        assert(run_runes(done, rs.drop_first()) == (done, Seq::<u8>::empty()));
        assert(Seq::<u8>::empty() + Seq::<u8>::empty() =~= Seq::<u8>::empty());
    } else {
        assert(rs[0] == params[0]);
        assert(!csi_final(params[0]));
        assert(rune_step(st, params[0]) == (st, Seq::<u8>::empty()));
        let tail = params.drop_first();
        assert forall|i: int| 0 <= i < tail.len() implies !csi_final(#[trigger] tail[i]) by {
            assert(tail[i] == params[i + 1]);
        }
        assert(rs.drop_first() =~= tail + seq![fin]);
        lemma_csi_rest(st, tail, fin);
        assert(Seq::<u8>::empty() + Seq::<u8>::empty() =~= Seq::<u8>::empty());
    }
}

/// Inside an OSC sequence, text without BEL or ESC passes without output and
/// BEL returns to normal text, leaving everything else as it was.
proof fn lemma_osc_rest(st: SanitizerState, body: Seq<char>)
    requires
        st.escape == EscapeState::Osc,
        forall|i: int| 0 <= i < body.len() ==> #[trigger] body[i] != '\u{07}' && body[i] != ESC,
    ensures
        run_runes(st, body + seq!['\u{07}']) == (SanitizerState { escape: EscapeState::Normal, ..st }, Seq::<u8>::empty()),
    decreases body.len(),
{
    let rs = body + seq!['\u{07}'];
    let done = SanitizerState { escape: EscapeState::Normal, ..st };
    if body.len() == 0 {
        assert(rs =~= seq!['\u{07}']);
        assert(rs[0] == '\u{07}');
        assert(rune_step(st, '\u{07}') == (done, Seq::<u8>::empty()));
        assert(rs.drop_first() =~= Seq::<char>::empty());
        assert(run_runes(done, rs.drop_first()) == (done, Seq::<u8>::empty()));
        assert(Seq::<u8>::empty() + Seq::<u8>::empty() =~= Seq::<u8>::empty());
    } else {
        assert(rs[0] == body[0]);
        assert(rune_step(st, body[0]) == (st, Seq::<u8>::empty()));
        let tail = body.drop_first();
        assert forall|i: int| 0 <= i < tail.len() implies #[trigger] tail[i] != '\u{07}' && tail[i] != ESC by {
            assert(tail[i] == body[i + 1]);
        }
        assert(rs.drop_first() =~= tail + seq!['\u{07}']);
        lemma_osc_rest(st, tail);
        assert(Seq::<u8>::empty() + Seq::<u8>::empty() =~= Seq::<u8>::empty());
    }
}

/// Law: a complete escape sequence read in normal text outputs nothing and
/// changes nothing: the pending line and a pending carriage return stay as
/// they were. So a carriage return, an escape sequence and then a visible
/// character (not a newline) behave as the carriage return and the character
/// alone: the pending line starts over with that character.
pub proof fn law_escape_sequences_change_nothing(
    st: SanitizerState,
    params: Seq<char>,
    fin: char,
    body: Seq<char>,
    c: char,
)
    requires
        st.escape == EscapeState::Normal,
        forall|i: int| 0 <= i < params.len() ==> !csi_final(#[trigger] params[i]),
        csi_final(fin),
        forall|i: int| 0 <= i < body.len() ==> #[trigger] body[i] != '\u{07}' && body[i] != ESC,
        c != ESC && c != '\r' && c != '\n',
    ensures
        run_runes(st, csi_sequence(params, fin)) == (st, Seq::<u8>::empty()),
        run_runes(st, osc_sequence(body)) == (st, Seq::<u8>::empty()),
        run_runes(st, seq!['\r'] + csi_sequence(params, fin) + seq![c]) == run_runes(st, seq!['\r', c]),
        run_runes(st, seq!['\r'] + csi_sequence(params, fin) + seq![c]).0.line == encode_scalar(c as u32),
        !run_runes(st, seq!['\r'] + csi_sequence(params, fin) + seq![c]).0.pending_cr,
{
    let csi = csi_sequence(params, fin);
    let st_esc = SanitizerState { escape: EscapeState::Esc, ..st };
    let st_csi = SanitizerState { escape: EscapeState::Csi, ..st };
    assert(csi[0] == ESC);
    assert(csi.drop_first()[0] == '[');
    assert(csi.drop_first().drop_first() =~= params + seq![fin]);
    lemma_csi_rest(st_csi, params, fin);
    assert(st_csi.escape == EscapeState::Csi);
    assert(SanitizerState { escape: EscapeState::Normal, ..st_csi } == st);
    assert(Seq::<u8>::empty() + Seq::<u8>::empty() =~= Seq::<u8>::empty());
    assert(run_runes(st_esc, csi.drop_first()) == (st, Seq::<u8>::empty()));
    assert(run_runes(st, csi) == (st, Seq::<u8>::empty()));

    let osc = osc_sequence(body);
    let st_osc = SanitizerState { escape: EscapeState::Osc, ..st };
    assert(osc[0] == ESC);
    assert(osc.drop_first()[0] == ']');
    assert(osc.drop_first().drop_first() =~= body + seq!['\u{07}']);
    lemma_osc_rest(st_osc, body);
    assert(SanitizerState { escape: EscapeState::Normal, ..st_osc } == st);
    assert(run_runes(st_esc, osc.drop_first()) == (st, Seq::<u8>::empty()));
    assert(run_runes(st, osc) == (st, Seq::<u8>::empty()));

    let (s1, o1) = rune_step(st, '\r');
    assert(s1.escape == EscapeState::Normal);
    assert(s1.pending_cr);
    let with = seq!['\r'] + csi + seq![c];
    lemma_run_runes_concat(st, seq!['\r'], csi + seq![c]);
    assert(with =~= seq!['\r'] + (csi + seq![c]));
    assert(seq!['\r'].drop_first() =~= Seq::<char>::empty());
    assert(seq!['\r'][0] == '\r');
    assert(run_runes(s1, Seq::<char>::empty()) == (s1, Seq::<u8>::empty()));
    assert(run_runes(st, seq!['\r']) == (s1, o1 + Seq::<u8>::empty()));
    lemma_run_runes_concat(s1, csi, seq![c]);
    // the escape sequence leaves `s1` as it is
    let s1_esc = SanitizerState { escape: EscapeState::Esc, ..s1 };
    let s1_csi = SanitizerState { escape: EscapeState::Csi, ..s1 };
    lemma_csi_rest(s1_csi, params, fin);
    assert(SanitizerState { escape: EscapeState::Normal, ..s1_csi } == s1);
    assert(run_runes(s1_esc, csi.drop_first()) == (s1, Seq::<u8>::empty()));
    assert(run_runes(s1, csi) == (s1, Seq::<u8>::empty()));
    let without = seq!['\r', c];
    assert(without[0] == '\r');
    assert(without.drop_first() =~= seq![c]);
    assert(seq![c].drop_first() =~= Seq::<char>::empty());
    let (s2, o2) = rune_step(s1, c);
    assert(seq![c][0] == c);
    assert(run_runes(s2, Seq::<char>::empty()) == (s2, Seq::<u8>::empty()));
    assert(run_runes(s1, seq![c]) == (s2, o2 + Seq::<u8>::empty()));
    assert(o2 + Seq::<u8>::empty() =~= o2);
    assert(o1 + Seq::<u8>::empty() =~= o1);
    assert(Seq::<u8>::empty() + o2 =~= o2);
    assert(Seq::<u8>::empty() + encode_scalar(c as u32) =~= encode_scalar(c as u32));
}

/// Output made of whole lines: nothing, or bytes that end in a newline.
pub open spec fn whole_lines(out: Seq<u8>) -> bool {
    out.len() == 0 || out.last() == 0x0Au8
}

/// One character's output is nothing or a line with its newline.
proof fn lemma_step_whole_lines(st: SanitizerState, r: char)
    ensures
        whole_lines(rune_step(st, r).1),
{
    let (_, _, o) = visible_step(st.line, st.pending_cr, r);
    assert(whole_lines(o));
}

/// Whatever characters are read, the output is made of whole lines.
proof fn lemma_run_whole_lines(st: SanitizerState, rs: Seq<char>)
    ensures
        whole_lines(run_runes(st, rs).1),
    decreases rs.len(),
{
    if rs.len() > 0 {
        let (s1, o1) = rune_step(st, rs[0]);
        lemma_step_whole_lines(st, rs[0]);
        lemma_run_whole_lines(s1, rs.drop_first());
        let o2 = run_runes(s1, rs.drop_first()).1;
        if o2.len() > 0 {
            assert((o1 + o2).last() == o2.last());
        } else {
            assert(o1 + o2 =~= o1);
        }
    }
}

/// Law: whatever bytes a sanitizer with a clean pending line is fed, it
/// emits only whole lines, valid UTF-8 with no escape and no carriage
/// return byte, and its pending line stays clean.
pub proof fn law_feed_emits_clean_lines(st: SanitizerState, text: Seq<u8>)
    requires
        clean_line(st.line),
    ensures
        ({
            let (s, out) = run_runes(st, runes(text));
            &&& whole_lines(out)
            &&& clean_output(out)
            &&& clean_line(s.line)
        }),
{
    lemma_run_whole_lines(st, runes(text));
    lemma_run_clean(st, runes(text));
}

impl PtySanitizer {
    /// The sanitizer's pending line is clean.
    pub closed spec fn wf(&self) -> bool {
        clean_line(self.line_buffer@)
    }

    pub fn new() -> (s: Self)
        ensures
            s@ == initial_state(),
            s.wf(),
    {
        Self { line_buffer: Vec::new(), pending_cr: false, state: EscapeState::Normal }
    }

    /// Reads a chunk of bytes and returns the lines that it completes.
    pub fn feed(&mut self, text: &[u8]) -> (out: Vec<u8>)
        requires
            old(self).wf(),
        ensures
            (final(self)@, out@) == run_runes(old(self)@, runes(text@)),
            final(self).wf(),
            clean_output(out@),
            whole_lines(out@),
    {
        let ghost start = self@;
        proof {
            lemma_run_clean(self@, runes(text@));
            lemma_run_whole_lines(self@, runes(text@));
        }
        let mut out: Vec<u8> = Vec::new();
        let mut pos: usize = 0;
        assert(text@.subrange(0, text@.len() as int) =~= text@);
        while pos < text.len()
            invariant
                pos <= text.len(),
                ({
                    let (s, o) = run_runes(self@, runes(text@.subrange(pos as int, text@.len() as int)));
                    run_runes(start, runes(text@)) == (s, out@ + o)
                }),
            decreases text.len() - pos,
        {
            let rest = &text[pos..text.len()];
            let (ch, size) = decode_rune(rest);
            let ghost rs = runes(rest@);
            proof {
                assert(rs == seq![ch] + runes(rest@.subrange(size as int, rest@.len() as int)));
                assert(rs[0] == ch);
                assert(rs.drop_first() =~= runes(rest@.subrange(size as int, rest@.len() as int)));
                assert(rest@.subrange(size as int, rest@.len() as int) =~= text@.subrange(
                    pos + size,
                    text@.len() as int,
                ));
            }
            let ghost old_out = out@;
            out = self.consume_rune(ch, out);
            proof {
                let (s2, o2) = run_runes(self@, rs.drop_first());
                assert(old_out + (out@.subrange(old_out.len() as int, out@.len() as int) + o2) =~= out@ + o2);
            }
            pos = pos + size;
        }
        proof {
            assert(runes(text@.subrange(pos as int, text@.len() as int)) =~= Seq::<char>::empty());
            assert(out@ + Seq::<u8>::empty() =~= out@);
            lemma_run_clean(start, runes(text@));
        }
        out
    }

    /// Ends the stream: returns the pending line as it stands and resets the
    /// sanitizer.
    pub fn flush(&mut self) -> (tail: Vec<u8>)
        requires
            old(self).wf(),
        ensures
            tail@ == old(self)@.line,
            final(self)@ == initial_state(),
            final(self).wf(),
    {
        self.state = EscapeState::Normal;
        self.pending_cr = false;
        let mut tail: Vec<u8> = Vec::new();
        std::mem::swap(&mut tail, &mut self.line_buffer);
        tail
    }

    fn consume_rune(&mut self, r: char, out: Vec<u8>) -> (res: Vec<u8>)
        ensures
            ({
                let (s, o) = rune_step(old(self)@, r);
                final(self)@ == s && res@ == out@ + o
            }),
    {
        match self.state {
            EscapeState::Normal => {
                if r == ESC {
                    self.state = EscapeState::Esc;
                    return out;
                }
                self.consume_visible(r, out)
            },
            EscapeState::Esc => {
                if r == '[' {
                    self.state = EscapeState::Csi;
                } else if r == ']' {
                    self.state = EscapeState::Osc;
                } else {
                    self.state = EscapeState::Normal;
                    if r != ESC && is_printable(r) {
                        return self.consume_visible(r, out);
                    }
                }
                assert(out@ + Seq::<u8>::empty() =~= out@);
                out
            },
            EscapeState::Csi => {
                if '@' <= r && r <= '~' {
                    self.state = EscapeState::Normal;
                }
                assert(out@ + Seq::<u8>::empty() =~= out@);
                out
            },
            EscapeState::Osc => {
                if r == '\u{07}' {
                    self.state = EscapeState::Normal;
                } else if r == ESC {
                    self.state = EscapeState::OscEsc;
                }
                assert(out@ + Seq::<u8>::empty() =~= out@);
                out
            },
            EscapeState::OscEsc => {
                if r == '\\' {
                    self.state = EscapeState::Normal;
                } else {
                    self.state = EscapeState::Osc;
                }
                assert(out@ + Seq::<u8>::empty() =~= out@);
                out
            },
        }
    }

    fn consume_visible(&mut self, r: char, out: Vec<u8>) -> (res: Vec<u8>)
        ensures
            ({
                let (line, pcr, o) = visible_step(old(self).line_buffer@, old(self).pending_cr, r);
                &&& final(self).line_buffer@ == line
                &&& final(self).pending_cr == pcr
                &&& final(self).state == old(self).state
                &&& res@ == out@ + o
            }),
    {
        let mut out = out;
        if self.pending_cr {
            if r == '\n' {
                let ghost before = out@;
                out.extend_from_slice(self.line_buffer.as_slice());
                out.push(0x0Au8);
                assert(out@ =~= before + self.line_buffer@.push(0x0Au8));
                self.line_buffer.clear();
                self.pending_cr = false;
                return out;
            }
            self.line_buffer.clear();
            self.pending_cr = false;
        }
        if r == '\r' {
            self.pending_cr = true;
            assert(out@ + Seq::<u8>::empty() =~= out@);
            return out;
        }
        if r == '\n' {
            let ghost before = out@;
            out.extend_from_slice(self.line_buffer.as_slice());
            out.push(0x0Au8);
            assert(out@ =~= before + self.line_buffer@.push(0x0Au8));
            self.line_buffer.clear();
            return out;
        }
        push_utf8(&mut self.line_buffer, r);
        assert(out@ + Seq::<u8>::empty() =~= out@);
        out
    }
}

impl Default for PtySanitizer {
    fn default() -> (s: Self)
        ensures
            s@ == initial_state(),
            s.wf(),
    {
        Self::new()
    }
}

fn is_printable(r: char) -> (b: bool)
    ensures
        b == is_printable_spec(r),
{
    r >= '\u{20}' && r != '\u{7f}'
}

/// Appends the UTF-8 encoding of a character.
pub fn push_utf8(buf: &mut Vec<u8>, c: char)
    ensures
        final(buf)@ == old(buf)@ + encode_scalar(c as u32),
{
    let v: u32 = c as u32;
    let ghost before = buf@;
    if v <= 0x7F {
        buf.push((v & 0x7F) as u8);
    } else if v <= 0x7FF {
        buf.push(0xC0u8 | ((v >> 6) & 0x1F) as u8);
        buf.push(0x80u8 | (v & 0x3F) as u8);
    } else if v <= 0xFFFF {
        buf.push(0xE0u8 | ((v >> 12) & 0x0F) as u8);
        buf.push(0x80u8 | ((v >> 6) & 0x3F) as u8);
        buf.push(0x80u8 | (v & 0x3F) as u8);
    } else {
        buf.push(0xF0u8 | ((v >> 18) & 0x7) as u8);
        buf.push(0x80u8 | ((v >> 12) & 0x3F) as u8);
        buf.push(0x80u8 | ((v >> 6) & 0x3F) as u8);
        buf.push(0x80u8 | (v & 0x3F) as u8);
    }
    proof {
        char_is_scalar(c);
    }
    assert(buf@ =~= before + encode_scalar(v));
}

/// `char::from_u32` on a value known to be a Unicode scalar.
#[verifier::external_body]
pub fn char_from_scalar(v: u32) -> (c: char)
    requires
        is_scalar(v),
    ensures
        c as u32 == v,
{
    char::from_u32(v).unwrap_or('\u{FFFD}')
}

/// Decodes the character at the start of a non-empty byte sequence, with
/// U+FFFD standing for a byte that starts no valid sequence.
pub fn decode_rune(text: &[u8]) -> (r: (char, usize))
    requires
        text.len() > 0,
    ensures
        r.0 == first_rune(text@).0,
        r.1 == first_rune(text@).1,
        1 <= r.1 <= text.len(),
{
    let n = text.len();
    let b0 = text[0];
    if b0 <= 0x7F {
        let v: u32 = (b0 & 0x7F) as u32;
        proof {
            assert(valid_first_scalar(text@));
            assert(v < 0x80) by (bit_vector)
                requires v == (b0 & 0x7F) as u32;
        }
        return (char_from_scalar(v), 1);
    }
    if 0xC0 <= b0 && b0 <= 0xDF && n >= 2 && 0x80 <= text[1] && text[1] <= 0xBF {
        let b1 = text[1];
        let v: u32 = (((b0 & 0x1F) as u32) << 6) | ((b1 & 0x3F) as u32);
        if 0x80 <= v {
            proof {
                assert(v <= 0x7FF) by (bit_vector)
                    requires v == (((b0 & 0x1F) as u32) << 6) | ((b1 & 0x3F) as u32);
                assert(valid_first_scalar(text@));
            }
            return (char_from_scalar(v), 2);
        }
    } else if 0xE0 <= b0 && b0 <= 0xEF && n >= 3 && 0x80 <= text[1] && text[1] <= 0xBF
        && 0x80 <= text[2] && text[2] <= 0xBF {
        let b1 = text[1];
        let b2 = text[2];
        let v: u32 = (((b0 & 0x0F) as u32) << 12) | (((b1 & 0x3F) as u32) << 6) | ((b2 & 0x3F) as u32);
        if 0x800 <= v && !(0xD800 <= v && v <= 0xDFFF) {
            proof {
                assert(valid_first_scalar(text@));
                assert(v <= 0xFFFF) by (bit_vector)
                    requires v == (((b0 & 0x0F) as u32) << 12) | (((b1 & 0x3F) as u32) << 6) | ((b2 & 0x3F) as u32);
            }
            return (char_from_scalar(v), 3);
        }
    } else if 0xF0 <= b0 && b0 <= 0xF7 && n >= 4 && 0x80 <= text[1] && text[1] <= 0xBF
        && 0x80 <= text[2] && text[2] <= 0xBF && 0x80 <= text[3] && text[3] <= 0xBF {
        let b1 = text[1];
        let b2 = text[2];
        let b3 = text[3];
        let v: u32 = (((b0 & 0x07) as u32) << 18) | (((b1 & 0x3F) as u32) << 12) | (((b2 & 0x3F) as u32) << 6) | ((b3 & 0x3F) as u32);
        if 0x10000 <= v && v <= 0x10FFFF {
            proof {
                assert(is_leading_byte_width_4(text@[0]));
                assert(!is_leading_byte_width_1(text@[0]) && !is_leading_byte_width_2(text@[0]) && !is_leading_byte_width_3(text@[0]));
                assert(decode_first_codepoint(text@) == codepoint_width_4(b0, b1, b2, b3));
                assert(codepoint_width_4(b0, b1, b2, b3) == v);
                assert(valid_first_scalar(text@));
            }
            return (char_from_scalar(v), 4);
        }
    }
    proof {
        assert(!valid_first_scalar(text@));
    }
    ('\u{FFFD}', 1)
}

/// Reading characters one after another composes: what `a + b` does is what
/// `a` does, followed by what `b` does in the state `a` left behind.
pub proof fn lemma_run_runes_concat(st: SanitizerState, a: Seq<char>, b: Seq<char>)
    ensures
        ({
            let (s1, o1) = run_runes(st, a);
            let (s2, o2) = run_runes(s1, b);
            run_runes(st, a + b) == (s2, o1 + o2)
        }),
    decreases a.len(),
{
    if a.len() == 0 {
        assert(a + b =~= b);
        let (s2, o2) = run_runes(st, b);
        assert(Seq::<u8>::empty() + o2 =~= o2);
    } else {
        let (s1, o1) = rune_step(st, a[0]);
        assert((a + b)[0] == a[0]);
        assert((a + b).drop_first() =~= a.drop_first() + b);
        lemma_run_runes_concat(s1, a.drop_first(), b);
        let (t1, p1) = run_runes(s1, a.drop_first());
        let (t2, p2) = run_runes(t1, b);
        assert(o1 + (p1 + p2) =~= (o1 + p1) + p2);
    }
}

/// The UTF-8 encoding of a character other than escape, carriage return and
/// newline is a clean line.
proof fn lemma_encode_clean(c: char)
    requires
        c != ESC,
        c != '\r',
        c != '\n',
    ensures
        clean_line(encode_scalar(c as u32)),
{
    char_is_scalar(c);
    let v = c as u32;
    assert(encode_utf8(seq![c]) =~= encode_scalar(v)) by {
        reveal_with_fuel(encode_utf8, 2);
        assert(seq![c].drop_first() =~= Seq::<char>::empty());
    }
    encode_utf8_valid_utf8(seq![c]);
    if has_width_1_encoding(v) {
        assert(leading_byte_width_1(v) == v as u8) by (bit_vector)
            requires v <= 0x7F;
    } else if has_width_2_encoding(v) {
        assert(leading_byte_width_2(v) >= 0xC0 && last_continuation_byte(v) >= 0x80) by (bit_vector);
    } else if has_width_3_encoding(v) {
        assert(leading_byte_width_3(v) >= 0xE0 && second_last_continuation_byte(v) >= 0x80
            && last_continuation_byte(v) >= 0x80) by (bit_vector);
    } else {
        assert(leading_byte_width_4(v) >= 0xF0 && third_last_continuation_byte(v) >= 0x80
            && second_last_continuation_byte(v) >= 0x80 && last_continuation_byte(v) >= 0x80) by (bit_vector);
    }
}

proof fn lemma_clean_line_append(line: Seq<u8>, c: char)
    requires
        clean_line(line),
        c != ESC,
        c != '\r',
        c != '\n',
    ensures
        clean_line(line + encode_scalar(c as u32)),
{
    lemma_encode_clean(c);
    valid_utf8_concat(line, encode_scalar(c as u32));
    let e = encode_scalar(c as u32);
    assert forall|i: int| 0 <= i < (line + e).len() implies (line + e)[i] != 0x1Bu8 && (line
        + e)[i] != 0x0Du8 && (line + e)[i] != 0x0Au8 by {
        if i < line.len() {
            assert((line + e)[i] == line[i]);
        } else {
            assert((line + e)[i] == e[i - line.len()]);
        }
    }
}

proof fn lemma_clean_line_output(line: Seq<u8>)
    requires
        clean_line(line),
    ensures
        clean_output(line.push(0x0Au8)),
{
    let nl = seq![0x0Au8];
    assert(valid_utf8(nl)) by {
        reveal_with_fuel(valid_utf8, 2);
        assert(valid_first_scalar(nl));
        assert(pop_first_scalar(nl) =~= Seq::<u8>::empty());
    }
    valid_utf8_concat(line, nl);
    assert(line + nl =~= line.push(0x0Au8));
}

/// One character keeps the pending line clean and outputs clean text.
proof fn lemma_step_clean(st: SanitizerState, r: char)
    requires
        clean_line(st.line),
    ensures
        clean_line(rune_step(st, r).0.line),
        clean_output(rune_step(st, r).1),
{
    let empty = Seq::<u8>::empty();
    assert(valid_utf8(empty));
    assert(clean_line(empty));
    assert(clean_output(empty));
    lemma_clean_line_output(st.line);
    if r != ESC && r != '\r' && r != '\n' {
        lemma_clean_line_append(st.line, r);
        lemma_clean_line_append(empty, r);
        assert(empty + encode_scalar(r as u32) =~= encode_scalar(r as u32));
    }
    assert(empty.push(0x0Au8) =~= seq![0x0Au8]);
    lemma_clean_line_output(empty);
}

/// Law: whatever bytes come in, a sanitizer whose pending line is clean keeps
/// it clean, and everything it outputs is valid UTF-8 without escape or
/// carriage return bytes.
pub proof fn lemma_run_clean(st: SanitizerState, rs: Seq<char>)
    requires
        clean_line(st.line),
    ensures
        clean_line(run_runes(st, rs).0.line),
        clean_output(run_runes(st, rs).1),
    decreases rs.len(),
{
    if rs.len() == 0 {
        assert(valid_utf8(Seq::<u8>::empty()));
    } else {
        let (s1, o1) = rune_step(st, rs[0]);
        lemma_step_clean(st, rs[0]);
        lemma_run_clean(s1, rs.drop_first());
        let (s2, o2) = run_runes(s1, rs.drop_first());
        valid_utf8_concat(o1, o2);
        assert forall|i: int| 0 <= i < (o1 + o2).len() implies (o1 + o2)[i] != 0x1Bu8 && (o1
            + o2)[i] != 0x0Du8 by {
            if i < o1.len() {
                assert((o1 + o2)[i] == o1[i]);
            } else {
                assert((o1 + o2)[i] == o2[i - o1.len()]);
            }
        }
    }
}


/// The character at the start of `x + y` is the one at the start of `x` when
/// `x` ends in an ASCII byte: no UTF-8 sequence runs across such a byte.
proof fn lemma_first_rune_prefix(x: Seq<u8>, y: Seq<u8>)
    requires
        x.len() > 0,
        x.last() < 0x80u8,
    ensures
        first_rune(x + y) == first_rune(x),
        1 <= first_rune(x).1 <= x.len(),
{
    let xy = x + y;
    assert(xy[0] == x[0]);
    if x.len() >= 2 {
        assert(xy[1] == x[1]);
    }
    if x.len() >= 3 {
        assert(xy[2] == x[2]);
    }
    if x.len() >= 4 {
        assert(xy[3] == x[3]);
    }
    assert(xy[x.len() - 1] == x.last());
}

/// The characters of `x + y` are those of `x` followed by those of `y`, when
/// `x` is empty or ends in an ASCII byte.
proof fn lemma_runes_concat(x: Seq<u8>, y: Seq<u8>)
    requires
        x.len() == 0 || x.last() < 0x80u8,
    ensures
        runes(x + y) == runes(x) + runes(y),
    decreases x.len(),
{
    if x.len() == 0 {
        assert(x + y =~= y);
        assert(runes(x) =~= Seq::<char>::empty());
        assert(Seq::<char>::empty() + runes(y) =~= runes(y));
    } else {
        lemma_first_rune_prefix(x, y);
        let (c, n) = first_rune(x);
        let xr = x.subrange(n, x.len() as int);
        assert((x + y).subrange(n, (x + y).len() as int) =~= xr + y);
        if n == x.len() {
            assert(xr =~= Seq::<u8>::empty());
            assert(runes(xr) == Seq::<char>::empty());
            assert(xr + y =~= y);
            assert(runes(x) =~= seq![c]);
        } else {
            assert(xr.last() == x.last());
            lemma_runes_concat(xr, y);
        }
        assert(runes(x + y) =~= seq![c] + (runes(xr) + runes(y)));
        assert(runes(x) + runes(y) =~= seq![c] + runes(xr) + runes(y));
    }
}

/// The character at the start of `x + y` is the one at the start of `x` when
/// `x` begins with a whole, well-formed character.
proof fn lemma_first_rune_valid_prefix(x: Seq<u8>, y: Seq<u8>)
    requires
        valid_first_scalar(x),
    ensures
        first_rune(x + y) == first_rune(x),
        1 <= first_rune(x).1 <= x.len(),
{
    let xy = x + y;
    assert(xy[0] == x[0]);
    if x.len() >= 2 {
        assert(xy[1] == x[1]);
    }
    if x.len() >= 3 {
        assert(xy[2] == x[2]);
    }
    if x.len() >= 4 {
        assert(xy[3] == x[3]);
    }
}

/// The characters of `x + y` are those of `x` followed by those of `y`, when
/// `x` is valid UTF-8.
proof fn lemma_runes_concat_valid(x: Seq<u8>, y: Seq<u8>)
    requires
        valid_utf8(x),
    ensures
        runes(x + y) == runes(x) + runes(y),
    decreases x.len(),
{
    if x.len() == 0 {
        assert(x + y =~= y);
        assert(runes(x) =~= Seq::<char>::empty());
        assert(Seq::<char>::empty() + runes(y) =~= runes(y));
    } else {
        lemma_first_rune_valid_prefix(x, y);
        let (c, n) = first_rune(x);
        let xr = x.subrange(n, x.len() as int);
        assert(xr == pop_first_scalar(x));
        assert((x + y).subrange(n, (x + y).len() as int) =~= xr + y);
        lemma_runes_concat_valid(xr, y);
        assert(runes(x + y) =~= seq![c] + (runes(xr) + runes(y)));
        assert(runes(x) + runes(y) =~= seq![c] + runes(xr) + runes(y));
    }
}

/// Law: a stream cut after an ASCII byte (for example after each newline), or
/// after a piece that is valid UTF-8, is sanitized the same whether it is fed
/// whole or in the two pieces.
pub proof fn law_chunked_feed(st: SanitizerState, a: Seq<u8>, b: Seq<u8>)
    requires
        a.len() == 0 || a.last() < 0x80u8 || valid_utf8(a),
    ensures
        ({
            let (s1, o1) = run_runes(st, runes(a));
            let (s2, o2) = run_runes(s1, runes(b));
            run_runes(st, runes(a + b)) == (s2, o1 + o2)
        }),
{
    if a.len() == 0 || a.last() < 0x80u8 {
        lemma_runes_concat(a, b);
    } else {
        lemma_runes_concat_valid(a, b);
    }
    lemma_run_runes_concat(st, runes(a), runes(b));
}

/// Plain characters (no escape, no carriage return) read in the normal state
/// pass through unchanged: what is output plus what stays pending is the old
/// pending line followed by their encoding.
proof fn lemma_plain_chars(st: SanitizerState, rs: Seq<char>)
    requires
        st.escape == EscapeState::Normal,
        !st.pending_cr,
        forall|i: int| 0 <= i < rs.len() ==> rs[i] != ESC && rs[i] != '\r',
    ensures
        ({
            let (s, o) = run_runes(st, rs);
            &&& s.escape == EscapeState::Normal
            &&& !s.pending_cr
            &&& o + s.line == st.line + encode_utf8(rs)
        }),
    decreases rs.len(),
{
    if rs.len() == 0 {
        assert(Seq::<u8>::empty() + st.line =~= st.line + encode_utf8(rs));
    } else {
        let c = rs[0];
        let (s1, o1) = rune_step(st, c);
        let tail = rs.drop_first();
        assert forall|i: int| 0 <= i < tail.len() implies tail[i] != ESC && tail[i] != '\r' by {
            assert(tail[i] == rs[i + 1]);
        }
        lemma_plain_chars(s1, tail);
        let (s2, o2) = run_runes(s1, tail);
        if c == '\n' {
            assert(encode_scalar(c as u32) =~= seq![0x0Au8]) by {
                assert(leading_byte_width_1(0x0Au32) == 0x0Au8) by (bit_vector);
            }
            assert(o1 =~= st.line + encode_scalar(c as u32));
            assert(s1.line =~= Seq::<u8>::empty());
        } else {
            assert(s1.line == st.line + encode_scalar(c as u32));
            assert(o1 =~= Seq::<u8>::empty());
        }
        assert(o1 + o2 + s2.line =~= o1 + (o2 + s2.line));
        assert(encode_utf8(rs) == encode_scalar(c as u32) + encode_utf8(tail));
        assert(st.line + encode_utf8(rs) =~= (st.line + encode_scalar(c as u32)) + encode_utf8(tail));
    }
}

/// On valid UTF-8 the sanitizer reads exactly the decoded characters.
pub proof fn lemma_runes_valid(b: Seq<u8>)
    requires
        valid_utf8(b),
    ensures
        runes(b) == decode_utf8(b),
    decreases b.len(),
{
    if b.len() > 0 {
        let n = length_of_first_scalar(b);
        let rest = b.subrange(n, b.len() as int);
        assert(rest == pop_first_scalar(b));
        lemma_runes_valid(rest);
    }
}

/// Valid UTF-8 without escape and carriage return bytes decodes to characters
/// that are neither.
proof fn lemma_decoded_plain(b: Seq<u8>)
    requires
        valid_utf8(b),
        forall|i: int| 0 <= i < b.len() ==> b[i] != 0x1Bu8 && b[i] != 0x0Du8,
    ensures
        forall|i: int| 0 <= i < decode_utf8(b).len() ==> decode_utf8(b)[i] != ESC && decode_utf8(b)[i] != '\r',
    decreases b.len(),
{
    if b.len() > 0 {
        let rest = pop_first_scalar(b);
        let n = length_of_first_scalar(b);
        assert forall|i: int| 0 <= i < rest.len() implies rest[i] != 0x1Bu8 && rest[i] != 0x0Du8 by {
            assert(0 <= i + n < b.len());
            assert(rest[i] == b[i + n]);
        }
        lemma_decoded_plain(rest);
        let v = decode_first_scalar(b);
        let b0 = b[0];
        if is_leading_byte_width_1(b0) {
            assert((b0 & 0x7F) as u32 == b0 as u32) by (bit_vector)
                requires b0 <= 0x7F;
        }
        assert(v != 0x1B && v != 0x0D);
        let d = decode_utf8(b);
        assert(d == seq![v as char] + decode_utf8(rest));
        assert forall|i: int| 0 <= i < d.len() implies d[i] != ESC && d[i] != '\r' by {
            if i == 0 {
                assert(d[0] == v as char);
                lemma_first_scalar_is_scalar(b);
                char_u32_cast_back(v);
            } else {
                assert(d[i] == decode_utf8(rest)[i - 1]);
            }
        }
    }
}

/// The value of a well-formed first sequence is a Unicode scalar.
pub proof fn lemma_first_scalar_is_scalar(b: Seq<u8>)
    requires
        valid_first_scalar(b),
    ensures
        is_scalar(decode_first_scalar(b)),
{
    let b0 = b[0];
    let v = decode_first_scalar(b);
    if is_leading_byte_width_1(b0) {
        assert(codepoint_width_1(b0) <= 0x7F) by (bit_vector);
    } else if is_leading_byte_width_2(b0) {
        let b1 = b[1];
        assert(codepoint_width_2(b0, b1) <= 0x7FF) by (bit_vector);
    } else if is_leading_byte_width_3(b0) {
        let b1 = b[1];
        let b2 = b[2];
        assert(codepoint_width_3(b0, b1, b2) <= 0xFFFF) by (bit_vector);
    }
}

proof fn char_u32_cast_back(v: u32)
    requires
        v != 0x1B,
        v != 0x0D,
        is_scalar(v),
    ensures
        (v as char) != ESC,
        (v as char) != '\r',
{
}

/// Law: text that is valid UTF-8 and holds no escape and no carriage return
/// byte comes out of a fresh sanitizer unchanged: what `feed` returns followed
/// by what `flush` returns is the text itself.
pub proof fn law_plain_text_unchanged(text: Seq<u8>)
    requires
        valid_utf8(text),
        forall|i: int| 0 <= i < text.len() ==> text[i] != 0x1Bu8 && text[i] != 0x0Du8,
    ensures
        ({
            let (s, o) = run_runes(initial_state(), runes(text));
            o + s.line == text
        }),
{
    lemma_runes_valid(text);
    lemma_decoded_plain(text);
    lemma_plain_chars(initial_state(), decode_utf8(text));
    decode_utf8_encode_utf8(text);
    assert(Seq::<u8>::empty() + text =~= text);
}

} // verus!
