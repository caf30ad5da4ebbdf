use vstd::prelude::*;
use vstd::string::*;
use vstd::utf8::*;

use crate::dev::gpio::{gpio_logs, gpio_output, gpio_rv};
use crate::dev::{dev_listing, Kind};
use crate::evq::evq_listing;
use crate::log::{Level, Logger};
use crate::rv::{rv_name, Rv};
use crate::Services;

use crate::words::{
    closed_words, cut, ends_in_word, is_word, join, law_split_join, lemma_words_bounds, lemma_words_prefix, split_cuts_fit,
    split_overflows, split_ranges, words, MAX_PARTS, str_eq, append, decimal, push_decimal, str_from_utf8, cuts_fit, views, byte_texts,
};

verus! {

broadcast use vstd::utf8::group_utf8_lib;

/// Room in the line buffer of a console, in bytes.
pub const LINE_CAP: usize = 128;

/// Room for one formatted message that a console sends, in bytes.
pub const MSG_CAP: usize = 128;

/// "\r\x1b[1mbms>\x1b[0m ": carriage return, then the prompt in bold.
pub open spec fn prompt() -> Seq<u8> {
    seq![13u8, 27, 91, 49, 109, 98, 109, 115, 62, 27, 91, 48, 109, 32]
}

/// "\x1b[K": erase to the end of the terminal line.
pub open spec fn erase_rest() -> Seq<u8> {
    seq![27u8, 91, 75]
}

/// "\r\n".
pub open spec fn crlf() -> Seq<u8> {
    seq![13u8, 10]
}

/// "\x1b[C": cursor one column right.
pub open spec fn cursor_right() -> Seq<u8> {
    seq![27u8, 91, 67]
}

/// "\x1b[D": cursor one column left.
pub open spec fn cursor_left() -> Seq<u8> {
    seq![27u8, 91, 68]
}

/// "> ": sent when a line has been handled.
pub open spec fn line_done() -> Seq<u8> {
    seq![62u8, 32]
}

/// What a console sends to show its line: the prompt, the line, an erase
/// of the rest of the terminal line, then "\x1b[<n>D" to move the cursor
/// back to `pos` when it is not at the end.
pub open spec fn redraw(line: Seq<u8>, pos: int) -> Seq<u8> {
    prompt() + line + erase_rest() + if pos < line.len() {
        seq![27u8, 91] + decimal((line.len() - pos) as nat) + seq![68u8]
    } else {
        Seq::<u8>::empty()
    }
}

/// A key ends the line: Enter (LF or CR) outside an escape sequence.
pub open spec fn is_enter(escape: int, c: u8) -> bool {
    escape == 0 && (c == 10 || c == 13)
}

/// The line editor's `(line, cursor, escape state)` after key `c`.
///
/// Outside an escape sequence: Ctrl-A moves to the start, Ctrl-D deletes
/// the byte under the cursor, Ctrl-E moves to the end, Backspace (8 or 127)
/// deletes the byte before the cursor, ESC starts an escape sequence, Enter
/// empties the line, and any other byte is inserted at the cursor while the
/// line has room. After ESC, '[' continues the sequence; after "ESC [",
/// 'C' moves right and 'D' moves left, and the sequence ends.
pub open spec fn key_state(line: Seq<u8>, pos: int, escape: int, c: u8) -> (Seq<u8>, int, int) {
    if escape == 0 {
        if c == 1 {
            (line, 0, 0)
        } else if c == 4 {
            if pos < line.len() {
                (line.remove(pos), pos, 0)
            } else {
                (line, pos, 0)
            }
        } else if c == 5 {
            (line, line.len() as int, 0)
        } else if c == 8 || c == 127 {
            if pos > 0 {
                (line.remove(pos - 1), pos - 1, 0)
            } else {
                (line, pos, 0)
            }
        } else if c == 27 {
            (line, pos, 1)
        } else if c == 10 || c == 13 {
            (Seq::<u8>::empty(), 0, 0)
        } else if line.len() < LINE_CAP {
            (line.insert(pos, c), pos + 1, 0)
        } else {
            (line, pos, 0)
        }
    } else if escape == 1 {
        (line, pos, if c == 91 { 2 } else { 0 })
    } else if escape == 2 {
        if c == 67 && pos < line.len() {
            (line, pos + 1, 0)
        } else if c == 68 && pos > 0 {
            (line, pos - 1, 0)
        } else {
            (line, pos, 0)
        }
    } else {
        (line, pos, 0)
    }
}

/// What key `c` sends before the line is shown again: "\r\n" for Enter,
/// and the cursor movement of an arrow key that moves the cursor.
pub open spec fn key_echo(line: Seq<u8>, pos: int, escape: int, c: u8) -> Seq<u8> {
    if is_enter(escape, c) {
        crlf()
    } else if escape == 2 && c == 67 && pos < line.len() {
        cursor_right()
    } else if escape == 2 && c == 68 && pos > 0 {
        cursor_left()
    } else {
        Seq::<u8>::empty()
    }
}

/// The keys that the line editor cannot take: a deletion (Ctrl-D under
/// the cursor, or Backspace) while the line fills the whole buffer, where
/// the byte shifted in would come from past the buffer's end.
pub open spec fn key_fails(line: Seq<u8>, pos: int, escape: int, c: u8) -> bool {
    &&& escape == 0
    &&& line.len() == LINE_CAP
    &&& ((c == 4 && pos < line.len()) || ((c == 8 || c == 127) && pos > 0))
}

/// An entered line that the console can handle: it is UTF-8, does not
/// end inside a word after the first `MAX_PARTS` words, and each part
/// that splitting it keeps can be cut out of it (see `split`).
pub open spec fn line_ok(line: Seq<u8>) -> bool {
    &&& valid_utf8(line)
    &&& !split_overflows(decode_utf8(line))
    &&& split_cuts_fit(decode_utf8(line))
}

/// The keys that the console cannot take: those that the line editor
/// cannot take (`key_fails`), and Enter on a line it cannot handle.
pub open spec fn char_fails(line: Seq<u8>, pos: int, escape: int, c: u8) -> bool {
    key_fails(line, pos, escape, c) || (is_enter(escape, c) && !line_ok(line))
}

/// The words of a line as strings: each part that splitting it keeps,
/// cut out of the line's UTF-8 bytes at its char indices.
pub open spec fn line_words(cs: Seq<char>) -> Seq<Seq<char>> {
    Seq::new(
        split_ranges(cs).len(),
        |j: int| decode_utf8(encode_utf8(cs).subrange(split_ranges(cs)[j].0, split_ranges(cs)[j].1)),
    )
}

/// A line of words separated by single spaces, entered as its UTF-8
/// bytes, can be handled and gives back those words, when it is ASCII and
/// has at most `MAX_PARTS` words.
pub proof fn law_entered_words(ws: Seq<Seq<char>>)
    requires
        ws.len() <= MAX_PARTS,
        forall|j: int| 0 <= j < ws.len() ==> is_word(#[trigger] ws[j]),
        is_ascii_chars(join(ws)),
    ensures
        line_ok(encode_utf8(join(ws))),
        line_words(decode_utf8(encode_utf8(join(ws)))) == ws,
{
    let cs = join(ws);
    law_split_join(ws);
    assert(decode_utf8(encode_utf8(cs)) == cs);
    assert forall|j: int| 0 <= j < ws.len() implies #[trigger] line_words(cs)[j] == ws[j] by {
        assert(encode_utf8(cs).subrange(split_ranges(cs)[j].0, split_ranges(cs)[j].1) == encode_utf8(ws[j]));
        assert(decode_utf8(encode_utf8(ws[j])) == ws[j]);
    }
    assert(line_words(cs) =~= ws);
}

/// `b` and `sb` are the console `a` and the services `sa` after the
/// console took key `c` from the terminal, for a command manager of the
/// commands `cmds` and devices whose own descriptions are `displays` and
/// pin states `states`.
///
/// The line editor goes to `key_state`. On Enter the console sends
/// "\r\n", then what handling the line's words sends (`line_output`),
/// then "> " and the empty line shown again; the services are those
/// after the line (`after_line`). On any other key it sends `key_echo`
/// and the line shown again, and the services stay as they were.
pub open spec fn char_handled(
    cmds: Seq<(Seq<char>, Seq<char>, Action)>,
    a: Cli,
    sa: Services,
    c: u8,
    displays: Seq<Seq<u8>>,
    states: Seq<bool>,
    b: Cli,
    sb: Services,
) -> bool {
    &&& b.wf()
    &&& (b.line(), b.pos(), b.escape()) == key_state(a.line(), a.pos(), a.escape(), c)
    &&& if is_enter(a.escape(), c) {
        let w = line_words(decode_utf8(a.line()));
        &&& b.output() == a.output() + crlf() + line_output(cmds, w, sa.devmgr@, displays, states)
            + line_done() + redraw(Seq::<u8>::empty(), 0)
        &&& after_line(cmds, w, sa, sb)
    } else {
        &&& b.output() == a.output() + key_echo(a.line(), a.pos(), a.escape(), c) + redraw(
            b.line(),
            b.pos(),
        )
        &&& services_after(
            sa,
            sb,
            sa.evq.runs(),
            Seq::<u8>::empty(),
            Seq::<(Level, Seq<char>, Seq<u8>, Option<usize>)>::empty(),
        )
    }
}

/// The bytes that `print` sends for a string: each char cut to its low byte.
pub open spec fn low_bytes(s: Seq<char>) -> Seq<u8> {
    s.map_values(|c: char| c as u8)
}

/// The bytes that `printf` sends for a message: its first `MSG_CAP` bytes.
pub open spec fn bounded(msg: Seq<u8>) -> Seq<u8> {
    if msg.len() <= MSG_CAP {
        msg
    } else {
        msg.take(MSG_CAP as int)
    }
}

/// A byte that the line editor inserts as text: none of Ctrl-A, Ctrl-D,
/// Ctrl-E, Backspace, ESC and Enter.
pub open spec fn is_text_key(c: u8) -> bool {
    c != 1 && c != 4 && c != 5 && c != 8 && c != 127 && c != 27 && c != 10 && c != 13
}

/// The line editor's state after a sequence of keys.
pub open spec fn keys_state(line: Seq<u8>, pos: int, escape: int, keys: Seq<u8>) -> (
    Seq<u8>,
    int,
    int,
)
    decreases keys.len(),
{
    if keys.len() == 0 {
        (line, pos, escape)
    } else {
        let s = keys_state(line, pos, escape, keys.drop_last());
        key_state(s.0, s.1, s.2, keys.last())
    }
}

/// Typing text at the end of the line appends it to the line and leaves
/// the cursor after it, as long as it fits the buffer.
pub proof fn law_typing_appends(line: Seq<u8>, keys: Seq<u8>)
    requires
        line.len() + keys.len() <= LINE_CAP,
        forall|k: int| 0 <= k < keys.len() ==> is_text_key(#[trigger] keys[k]),
    ensures
        keys_state(line, line.len() as int, 0, keys) == (line + keys, (line.len() + keys.len()) as int, 0int),
    decreases keys.len(),
{
    if keys.len() > 0 {
        let p = keys.drop_last();
        assert forall|k: int| 0 <= k < p.len() implies is_text_key(#[trigger] p[k]) by {
            assert(p[k] == keys[k]);
        }
        law_typing_appends(line, p);
        assert(is_text_key(keys[keys.len() - 1]));
        assert((line + p).insert((line.len() + p.len()) as int, keys.last()) =~= line + keys);
    }
}

/// Typing a byte that is not an editing key and then Backspace leaves the
/// line and the cursor as they were, when the line has room for the byte.
pub proof fn law_insert_then_backspace(line: Seq<u8>, pos: int, c: u8)
    requires
        0 <= pos <= line.len() < LINE_CAP,
        is_text_key(c),
    ensures
        ({
            let s = key_state(line, pos, 0, c);
            key_state(s.0, s.1, s.2, 8) == (line, pos, 0int)
        }),
{
    let s = key_state(line, pos, 0, c);
    assert(s.0 == line.insert(pos, c));
    assert(s.0.remove(pos) =~= line);
}

/// Moving the cursor never changes the line: Ctrl-A, Ctrl-E and the arrow
/// keys, and every key inside an escape sequence, keep it; and the cursor
/// stays within the line.
pub proof fn law_cursor_keys_keep_line(line: Seq<u8>, pos: int, escape: int, c: u8)
    requires
        0 <= pos <= line.len(),
        (escape == 0 && (c == 1 || c == 5)) || escape == 1 || escape == 2,
    ensures
        key_state(line, pos, escape, c).0 == line,
        0 <= key_state(line, pos, escape, c).1 <= line.len(),
{
}

/// The key sequence ESC '[' 'C' moves the cursor one byte right, within the
/// line, and only the last key echoes, "\x1b[C"; ESC '[' 'D' moves it one
/// byte left.
pub proof fn law_arrow_sequences(line: Seq<u8>, pos: int)
    requires
        0 <= pos <= line.len(),
    ensures
        ({
            let a = key_state(line, pos, 0, 27);
            let b = key_state(a.0, a.1, a.2, 91);
            &&& a == (line, pos, 1int)
            &&& b == (line, pos, 2int)
            &&& pos < line.len() ==> key_state(b.0, b.1, b.2, 67) == (line, pos + 1, 0int)
                && key_echo(b.0, b.1, b.2, 67) == cursor_right()
            &&& pos > 0 ==> key_state(b.0, b.1, b.2, 68) == (line, pos - 1, 0int)
                && key_echo(b.0, b.1, b.2, 68) == cursor_left()
        }),
{
}

/// After ESC '[' every byte ends the escape sequence and leaves the line
/// as it is: 'C' moves the cursor one byte right unless it is at the end
/// of the line, 'D' one byte left unless it is at the start, and any
/// other byte (such as the 'A' of the Up arrow) is dropped. After a lone
/// ESC, '[' continues the sequence and any other byte ends it.
pub proof fn law_escape_sequence_ends(line: Seq<u8>, pos: int, c: u8)
    requires
        0 <= pos <= line.len(),
    ensures
        key_state(line, pos, 2, c).2 == 0,
        key_state(line, pos, 2, c).0 == line,
        c != 67 && c != 68 ==> key_state(line, pos, 2, c).1 == pos,
        c == 67 ==> key_state(line, pos, 2, c).1 == if pos < line.len() { pos + 1 } else { pos },
        c == 68 ==> key_state(line, pos, 2, c).1 == if pos > 0 { pos - 1 } else { pos },
        0 <= key_state(line, pos, 2, c).1 <= line.len(),
        key_state(line, pos, 1, c).0 == line,
        key_state(line, pos, 1, c).1 == pos,
        key_state(line, pos, 1, c).2 == if c == 91 { 2int } else { 0int },
{
}

/// Ctrl-D deletes the byte under the cursor, wherever the cursor is in the
/// line (on its last byte too): the line loses that one byte and the
/// cursor stays; at the end of the line Ctrl-D does nothing. Backspace
/// deletes the byte before the cursor, which moves back one; at the start
/// of the line it does nothing.
pub proof fn law_deletions(line: Seq<u8>, pos: int)
    requires
        0 <= pos <= line.len(),
    ensures
        pos < line.len() ==> ({
            let r = key_state(line, pos, 0, 4);
            &&& r.0.len() == line.len() - 1
            &&& r.0 == line.take(pos) + line.skip(pos + 1)
            &&& r.1 == pos
            &&& r.2 == 0
        }),
        pos == line.len() ==> key_state(line, pos, 0, 4) == (line, pos, 0int),
        pos > 0 ==> ({
            let r = key_state(line, pos, 0, 8);
            &&& r.0.len() == line.len() - 1
            &&& r.0 == line.take(pos - 1) + line.skip(pos)
            &&& r.1 == pos - 1
            &&& r.2 == 0
        }),
        pos == 0 ==> key_state(line, pos, 0, 8) == (line, pos, 0int),
        key_state(line, pos, 0, 127) == key_state(line, pos, 0, 8),
{
    if pos < line.len() {
        assert(line.remove(pos) =~= line.take(pos) + line.skip(pos + 1));
    }
    if pos > 0 {
        assert(line.remove(pos - 1) =~= line.take(pos - 1) + line.skip(pos));
    }
}

/// A byte that is not an editing key goes into the line at the cursor,
/// which moves past it, while the line has room.
pub proof fn law_text_goes_in_at_cursor(line: Seq<u8>, pos: int, c: u8)
    requires
        0 <= pos <= line.len() < LINE_CAP,
        is_text_key(c),
    ensures
        key_state(line, pos, 0, c) == (line.take(pos).push(c) + line.skip(pos), pos + 1, 0int),
{
    assert(line.insert(pos, c) =~= line.take(pos).push(c) + line.skip(pos));
}

/// A full line takes no more bytes: a byte that is not an editing key
/// leaves a line of `LINE_CAP` bytes as it is.
pub proof fn law_full_line_takes_nothing(line: Seq<u8>, pos: int, c: u8)
    requires
        0 <= pos <= line.len(),
        line.len() == LINE_CAP,
        is_text_key(c),
    ensures
        key_state(line, pos, 0, c) == (line, pos, 0int),
{
}

/// A message sent with `printf` is never longer than `MSG_CAP` bytes, and
/// it is the start of the message.
pub proof fn law_printf_bounded(msg: Seq<u8>)
    ensures
        bounded(msg).len() <= MSG_CAP,
        bounded(msg) == msg.take(bounded(msg).len() as int),
{
    assert(msg.take(msg.len() as int) =~= msg);
}

/// An interactive console: a line editor on a byte stream, with the bytes
/// it has to send kept in order until they are taken.
pub struct Cli {
    line: Vec<u8>,
    pos: usize,
    escape: usize,
    tx: Vec<u8>,
}

impl Cli {
    /// The line being edited.
    pub closed spec fn line(&self) -> Seq<u8> {
        self.line@
    }

    /// The cursor's index in the line.
    pub closed spec fn pos(&self) -> int {
        self.pos as int
    }

    /// How far an escape sequence has been read (0: none, 1: ESC, 2: ESC '[').
    pub closed spec fn escape(&self) -> int {
        self.escape as int
    }

    /// The bytes to send that have not been taken yet.
    pub closed spec fn output(&self) -> Seq<u8> {
        self.tx@
    }

    /// The line fits the buffer and the cursor is within the line.
    pub open spec fn wf(&self) -> bool {
        &&& self.line().len() <= LINE_CAP
        &&& 0 <= self.pos() <= self.line().len()
        &&& 0 <= self.escape() <= 2
    }

    /// The line being edited.
    pub fn buffer(&self) -> (r: &Vec<u8>)
        ensures
            r@ == self.line(),
    {
        &self.line
    }

    /// The cursor's index in the line.
    pub fn cursor(&self) -> (r: usize)
        ensures
            r == self.pos(),
    {
        self.pos
    }

    /// Takes the bytes to send, in order.
    pub fn take_output(&mut self) -> (r: Vec<u8>)
        ensures
            r@ == old(self).output(),
            final(self).output() == Seq::<u8>::empty(),
            final(self).line() == old(self).line(),
            final(self).pos() == old(self).pos(),
            final(self).escape() == old(self).escape(),
    {
        let mut r: Vec<u8> = Vec::new();
        std::mem::swap(&mut r, &mut self.tx);
        r
    }

    /// Sends the line again: prompt, line, erase, cursor position.
    fn redraw(&mut self)
        requires
            old(self).wf(),
        ensures
            final(self).output() == old(self).output() + redraw(old(self).line(), old(self).pos()),
            final(self).line() == old(self).line(),
            final(self).pos() == old(self).pos(),
            final(self).escape() == old(self).escape(),
    {
        let ghost start = self.tx@;
        let head: [u8; 14] = [13u8, 27, 91, 49, 109, 98, 109, 115, 62, 27, 91, 48, 109, 32];
        let mut i: usize = 0;
        while i < 14
            invariant
                i <= 14,
                head@ == prompt(),
                self.tx@ == start + prompt().take(i as int),
                self.line@ == old(self).line@,
                self.pos == old(self).pos,
                self.escape == old(self).escape,
            decreases 14 - i,
        {
            self.tx.push(head[i]);
            i = i + 1;
            assert(prompt().take(i as int) =~= prompt().take(i - 1).push(prompt()[i - 1]));
        }
        assert(prompt().take(14) =~= prompt());
        let mut k: usize = 0;
        while k < self.line.len()
            invariant
                k <= self.line@.len(),
                self.tx@ == start + prompt() + self.line@.take(k as int),
                self.line@ == old(self).line@,
                self.pos == old(self).pos,
                self.escape == old(self).escape,
            decreases self.line@.len() - k,
        {
            let b = self.line[k];
            self.tx.push(b);
            k = k + 1;
            assert(self.line@.take(k as int) =~= self.line@.take(k - 1).push(b));
        }
        assert(self.line@.take(k as int) =~= self.line@);
        self.tx.push(27);
        self.tx.push(91);
        self.tx.push(75);
        if self.pos < self.line.len() {
            self.tx.push(27);
            self.tx.push(91);
            push_decimal(&mut self.tx, (self.line.len() - self.pos) as u64);
            self.tx.push(68);
        }
        assert(self.tx@ =~= start + redraw(old(self).line(), old(self).pos()));
    }

    /// The line editor's step for one byte from the terminal: updates the
    /// line and cursor (see `key_state`) and sends `key_echo`. On Enter it
    /// returns the line that was entered; on any other key it shows the
    /// line again (`redraw`).
    fn edit(&mut self, c: u8) -> (entered: Option<Vec<u8>>)
        requires
            old(self).wf(),
            !key_fails(old(self).line(), old(self).pos(), old(self).escape(), c),
        ensures
            final(self).wf(),
            (final(self).line(), final(self).pos(), final(self).escape()) == key_state(
                old(self).line(),
                old(self).pos(),
                old(self).escape(),
                c,
            ),
            entered is Some <==> is_enter(old(self).escape(), c),
            entered matches Some(l) ==> l@ == old(self).line() && final(self).output() == old(
                self,
            ).output() + crlf(),
            entered is None ==> final(self).output() == old(self).output() + key_echo(
                old(self).line(),
                old(self).pos(),
                old(self).escape(),
                c,
            ) + redraw(final(self).line(), final(self).pos()),
    {
        let ghost start = self.tx@;
        if self.escape == 0 {
            if c == 1 {
                self.pos = 0;
            } else if c == 4 {
                if self.pos < self.line.len() {
                    self.line.remove(self.pos);
                }
            } else if c == 5 {
                self.pos = self.line.len();
            } else if c == 8 || c == 127 {
                if self.pos > 0 {
                    self.pos = self.pos - 1;
                    self.line.remove(self.pos);
                }
            } else if c == 27 {
                self.escape = 1;
            } else if c == 10 || c == 13 {
                self.tx.push(13);
                self.tx.push(10);
                let mut entered: Vec<u8> = Vec::new();
                std::mem::swap(&mut entered, &mut self.line);
                self.pos = 0;
                assert(self.tx@ =~= start + crlf());
                return Some(entered);
            } else {
                if self.line.len() < LINE_CAP {
                    self.line.insert(self.pos, c);
                    self.pos = self.pos + 1;
                }
            }
        } else if self.escape == 1 {
            if c == 91 {
                self.escape = 2;
            } else {
                self.escape = 0;
            }
        } else if self.escape == 2 {
            if c == 67 {
                if self.pos < self.line.len() {
                    self.pos = self.pos + 1;
                    self.tx.push(27);
                    self.tx.push(91);
                    self.tx.push(67);
                }
            } else if c == 68 {
                if self.pos > 0 {
                    self.pos = self.pos - 1;
                    self.tx.push(27);
                    self.tx.push(91);
                    self.tx.push(68);
                }
            }
            self.escape = 0;
        } else {
            self.escape = 0;
        }
        assert(self.tx@ =~= start + key_echo(old(self).line(), old(self).pos(), old(self).escape(), c));
        self.redraw();
        None
    }

    /// Splits a line at its ' ' chars into its words, of which it keeps the
    /// first `MAX_PARTS`. Each part is cut out of the line's bytes with its
    /// char indices taken as byte indices.
    pub fn split<'a>(&self, line: &'a str) -> (parts: Vec<&'a str>)
        requires
            !split_overflows(line@),
            split_cuts_fit(line@),
        ensures
            parts@.len() == split_ranges(line@).len(),
            forall|j: int|
                0 <= j < parts@.len() ==> (#[trigger] parts@[j]).spec_bytes()
                    == line.spec_bytes().subrange(split_ranges(line@)[j].0, split_ranges(line@)[j].1),
    {
        let ghost cs = line@;
        let (ranges, _) = part_ranges(line);
        let mut parts: Vec<&'a str> = Vec::new();
        let mut j: usize = 0;
        while j < ranges.len()
            invariant
                cs == line@,
                split_cuts_fit(cs),
                ranges@.len() == split_ranges(cs).len(),
                forall|t: int|
                    0 <= t < ranges@.len() ==> (#[trigger] ranges@[t].0 as int, ranges@[t].1 as int)
                        == split_ranges(cs)[t],
                j <= ranges@.len(),
                parts@.len() == j,
                forall|t: int|
                    0 <= t < j ==> (#[trigger] parts@[t]).spec_bytes() == line.spec_bytes().subrange(
                        split_ranges(cs)[t].0,
                        split_ranges(cs)[t].1,
                    ),
            decreases ranges@.len() - j,
        {
            let (s, e) = ranges[j];
            assert((ranges@[j as int].0 as int, ranges@[j as int].1 as int) == split_ranges(cs)[j as int]);
            proof {
                lemma_words_bounds(cs);
                assert(split_ranges(cs)[j as int] == words(cs)[j as int]);
            }
            let part = cut(line, s, e);
            parts.push(part);
            j = j + 1;
        }
        parts
    }

    /// Handles a line that was entered: splits it into its parts and hands
    /// them to the command manager `mgr` (see `Mgr::handle_line`), then
    /// sends "> ". `displays[i]` and `states[i]` are device `i`'s own
    /// description and pin state.
    pub fn handle_line(
        &mut self,
        line: &str,
        mgr: &Mgr,
        svc: &mut Services,
        displays: &Vec<Vec<u8>>,
        states: &Vec<bool>,
    )
        requires
            !split_overflows(line@),
            split_cuts_fit(line@),
            displays@.len() == old(svc).devmgr@.len(),
            states@.len() == old(svc).devmgr@.len(),
        ensures
            final(self).output() == old(self).output() + line_output(
                mgr@,
                line_words(line@),
                old(svc).devmgr@,
                byte_texts(displays@),
                states@,
            ) + line_done(),
            after_line(mgr@, line_words(line@), *old(svc), *final(svc)),
            final(self).line() == old(self).line(),
            final(self).pos() == old(self).pos(),
            final(self).escape() == old(self).escape(),
    {
        let ghost ws = line_words(line@);
        if line.unicode_len() > 0 {
            let parts = self.split(line);
            assert(views(parts@) =~= ws) by {
                assert forall|j: int| 0 <= j < parts@.len() implies #[trigger] views(parts@)[j]
                    == ws[j] by {
                    assert(parts@[j].spec_bytes() == line.spec_bytes().subrange(
                        split_ranges(line@)[j].0,
                        split_ranges(line@)[j].1,
                    ));
                    assert(decode_utf8(encode_utf8(parts@[j]@)) == parts@[j]@);
                }
            }
            mgr.handle_line(self, svc, parts.as_slice(), displays, states);
        } else {
            assert(words(line@) =~= Seq::<(int, int)>::empty());
            assert(ws =~= Seq::<Seq<char>>::empty());
            assert(svc.stdout@ =~= old(svc).stdout@ + Seq::<u8>::empty());
            assert(svc.logger.pending() =~= old(svc).logger.pending() + Seq::<
                (Level, Seq<char>, Seq<u8>, Option<usize>),
            >::empty());
            assert(self.output() =~= old(self).output() + line_output(
                mgr@,
                ws,
                old(svc).devmgr@,
                byte_texts(displays@),
                states@,
            ));
        }
        self.print("> ");
        proof {
            reveal_strlit("> ");
            assert(low_bytes("> "@) =~= line_done());
        }
    }

    /// Takes one byte from the terminal.
    ///
    /// The line editor updates its line and cursor (see `key_state`) and
    /// sends `key_echo`. On Enter the line is handled by the command
    /// manager `mgr` (see `handle_line`) and emptied. Then the line is
    /// shown again (`redraw`). `displays[i]` and `states[i]` are device
    /// `i`'s own description and pin state.
    pub fn handle_char(
        &mut self,
        c: u8,
        mgr: &Mgr,
        svc: &mut Services,
        displays: &Vec<Vec<u8>>,
        states: &Vec<bool>,
    )
        requires
            old(self).wf(),
            !char_fails(old(self).line(), old(self).pos(), old(self).escape(), c),
            displays@.len() == old(svc).devmgr@.len(),
            states@.len() == old(svc).devmgr@.len(),
        ensures
            char_handled(
                mgr@,
                *old(self),
                *old(svc),
                c,
                byte_texts(displays@),
                states@,
                *final(self),
                *final(svc),
            ),
    {
        match self.edit(c) {
            Some(entered) => {
                let text = match str_from_utf8(entered.as_slice()) {
                    Some(t) => t,
                    None => "",
                };
                assert(text@ == decode_utf8(old(self).line()));
                self.handle_line(text, mgr, svc, displays, states);
                self.redraw();
                assert(self.output() =~= old(self).output() + crlf() + line_output(
                    mgr@,
                    line_words(decode_utf8(old(self).line())),
                    old(svc).devmgr@,
                    byte_texts(displays@),
                    states@,
                ) + line_done() + redraw(Seq::<u8>::empty(), 0));
            },
            None => {
                assert(svc.stdout@ =~= old(svc).stdout@ + Seq::<u8>::empty());
                assert(svc.logger.pending() =~= old(svc).logger.pending() + Seq::<
                    (Level, Seq<char>, Seq<u8>, Option<usize>),
                >::empty());
            },
        }
    }

    /// Whether `handle_line` can take an entered line: the line is UTF-8,
    /// does not end inside a word after the first `MAX_PARTS` words, and
    /// each part it keeps can be cut out of it.
    pub fn can_handle_line(line: &[u8]) -> (r: bool)
        ensures
            r == line_ok(line@),
    {
        let text = match str_from_utf8(line) {
            Some(t) => t,
            None => {
                return false;
            },
        };
        let ghost cs = text@;
        assert(cs == decode_utf8(line@));
        let (ranges, overflows) = part_ranges(text);
        if overflows {
            return false;
        }
        let fits = cuts_fit(text, &ranges);
        assert(fits == split_cuts_fit(cs)) by {
            if fits {
                assert forall|t: int| 0 <= t < split_ranges(cs).len() implies is_char_boundary(
                    encode_utf8(cs),
                    #[trigger] split_ranges(cs)[t].0,
                ) && is_char_boundary(encode_utf8(cs), split_ranges(cs)[t].1) by {
                    assert((ranges@[t].0 as int, ranges@[t].1 as int) == split_ranges(cs)[t]);
                }
            } else {
                let t = choose|t: int|
                    #![trigger ranges@[t]]
                    0 <= t < ranges@.len() && !(is_char_boundary(text.spec_bytes(), ranges@[t].0 as int)
                        && is_char_boundary(text.spec_bytes(), ranges@[t].1 as int));
                assert((ranges@[t].0 as int, ranges@[t].1 as int) == split_ranges(cs)[t]);
            }
        }
        fits
    }

    /// Whether the console can take key `c` (see `char_fails`).
    pub fn takes_key(&self, c: u8) -> (r: bool)
        requires
            self.wf(),
        ensures
            r == !char_fails(self.line(), self.pos(), self.escape(), c),
    {
        if self.escape == 0 && self.line.len() == LINE_CAP && ((c == 4 && self.pos < self.line.len())
            || ((c == 8 || c == 127) && self.pos > 0)) {
            return false;
        }
        if self.escape == 0 && (c == 10 || c == 13) {
            return Cli::can_handle_line(self.line.as_slice());
        }
        true
    }

    /// Sends a string, each char cut to its low byte.
    pub fn print(&mut self, s: &str)
        ensures
            final(self).output() == old(self).output() + low_bytes(s@),
            final(self).line() == old(self).line(),
            final(self).pos() == old(self).pos(),
            final(self).escape() == old(self).escape(),
    {
        let ghost start = self.tx@;
        let n = s.unicode_len();
        let mut i: usize = 0;
        while i < n
            invariant
                n == s@.len(),
                i <= n,
                self.tx@ == start + low_bytes(s@).take(i as int),
                self.line@ == old(self).line@,
                self.pos == old(self).pos,
                self.escape == old(self).escape,
            decreases n - i,
        {
            let c = s.get_char(i);
            self.tx.push(c as u8);
            i = i + 1;
            assert(low_bytes(s@).take(i as int) =~= low_bytes(s@).take(i - 1).push(c as u8));
        }
        assert(low_bytes(s@).take(n as int) =~= low_bytes(s@));
    }

    /// Sends bytes as they are.
    pub fn write(&mut self, buf: &[u8])
        ensures
            final(self).output() == old(self).output() + buf@,
            final(self).line() == old(self).line(),
            final(self).pos() == old(self).pos(),
            final(self).escape() == old(self).escape(),
    {
        let ghost start = self.tx@;
        let mut i: usize = 0;
        while i < buf.len()
            invariant
                i <= buf@.len(),
                self.tx@ == start + buf@.take(i as int),
                self.line@ == old(self).line@,
                self.pos == old(self).pos,
                self.escape == old(self).escape,
            decreases buf@.len() - i,
        {
            self.tx.push(buf[i]);
            i = i + 1;
            assert(buf@.take(i as int) =~= buf@.take(i - 1).push(buf@[i - 1]));
        }
        assert(buf@.take(i as int) =~= buf@);
    }

    /// Sends a formatted message through a buffer of `MSG_CAP` bytes: what
    /// does not fit is dropped.
    pub fn printf(&mut self, msg: &[u8])
        ensures
            final(self).output() == old(self).output() + bounded(msg@),
            final(self).line() == old(self).line(),
            final(self).pos() == old(self).pos(),
            final(self).escape() == old(self).escape(),
    {
        let ghost start = self.tx@;
        let n = if msg.len() <= MSG_CAP { msg.len() } else { MSG_CAP };
        let mut i: usize = 0;
        while i < n
            invariant
                n <= msg@.len(),
                n == bounded(msg@).len(),
                i <= n,
                self.tx@ == start + msg@.take(i as int),
                self.line@ == old(self).line@,
                self.pos == old(self).pos,
                self.escape == old(self).escape,
            decreases n - i,
        {
            self.tx.push(msg[i]);
            i = i + 1;
            assert(msg@.take(i as int) =~= msg@.take(i - 1).push(msg@[i - 1]));
        }
        assert(msg@.take(n as int) =~= bounded(msg@));
    }
}

/// What a console command does.
#[derive(Debug, PartialEq, Eq, Structural, Clone, Copy)]
pub enum Action {
    /// Lists the commands ("help").
    Help,
    /// Writes the event handlers to the standard output ("evq").
    ShowEvq,
    /// Lists the devices ("dev").
    ShowDevs,
    /// Lists the GPIO pins or looks one up ("gpio").
    Gpio,
    /// Stops the event queue ("quit").
    Quit,
}

/// A command that a console manager knows: its name, its usage text and
/// what it does.
pub struct Command {
    cmd: String,
    usage: String,
    action: Action,
}

/// The manager of a system's console commands: the commands in the order
/// they were registered. A console (`Cli`) hands it the lines it reads.
pub struct Mgr {
    handlers: Vec<Command>,
}

/// Some command of `cmds` is named `name`.
pub open spec fn has_cmd(cmds: Seq<(Seq<char>, Seq<char>, Action)>, name: Seq<char>) -> bool {
    exists|j: int| 0 <= j < cmds.len() && (#[trigger] cmds[j]).0 == name
}

/// Command `i` of `cmds` is the first one named `name`.
pub open spec fn first_cmd(cmds: Seq<(Seq<char>, Seq<char>, Action)>, name: Seq<char>, i: int) -> bool {
    &&& 0 <= i < cmds.len()
    &&& cmds[i].0 == name
    &&& forall|j: int| 0 <= j < i ==> (#[trigger] cmds[j]).0 != name
}

/// What the `help` command sends for one command: "<cmd> - <usage>\n",
/// through the console's message buffer.
pub open spec fn help_line(c: (Seq<char>, Seq<char>, Action)) -> Seq<u8> {
    bounded(encode_utf8(c.0) + seq![32u8, 45, 32] + encode_utf8(c.1) + seq![10u8])
}

/// What the `help` command sends: one line per command, in order.
pub open spec fn help_text(cmds: Seq<(Seq<char>, Seq<char>, Action)>) -> Seq<u8>
    decreases cmds.len(),
{
    if cmds.len() == 0 {
        Seq::<u8>::empty()
    } else {
        help_text(cmds.drop_last()) + help_line(cmds.last())
    }
}

/// What a console sends at the end of a line of `n_parts` parts whose
/// command ended with `rv`: ": <rv>\n" for a non-empty line that failed.
pub open spec fn line_report(n_parts: nat, rv: Rv) -> Seq<u8> {
    if n_parts > 0 && rv != Rv::Success {
        bounded(seq![58u8, 32] + rv_name(rv) + seq![10u8])
    } else {
        Seq::<u8>::empty()
    }
}

/// What command action `a` sends on the console, run with the arguments
/// `args` by a manager of the commands `cmds`, on the devices `devs`
/// whose own descriptions are `displays` and pin states `states`.
pub open spec fn action_output(
    a: Action,
    cmds: Seq<(Seq<char>, Seq<char>, Action)>,
    args: Seq<Seq<char>>,
    devs: Seq<(Seq<char>, Kind, Rv)>,
    displays: Seq<Seq<u8>>,
    states: Seq<bool>,
) -> Seq<u8> {
    match a {
        Action::Help => help_text(cmds),
        Action::ShowDevs => dev_listing(devs, displays),
        Action::Gpio => gpio_output(args, devs, displays, states),
        _ => Seq::<u8>::empty(),
    }
}

/// The result code of command action `a` run with the arguments `args`.
pub open spec fn action_rv(a: Action, args: Seq<Seq<char>>) -> Rv {
    if a == Action::Gpio {
        gpio_rv(args)
    } else {
        Rv::Success
    }
}

/// `b` is the services `a` after a command that leaves the event queue
/// running iff `runs`, writes `out` to the standard output and logs the
/// messages `logs`; the event handlers, the devices and the logger's
/// console and handlers stay as they were.
pub open spec fn services_after(
    a: Services,
    b: Services,
    runs: bool,
    out: Seq<u8>,
    logs: Seq<(Level, Seq<char>, Seq<u8>, Option<usize>)>,
) -> bool {
    &&& b.evq@ == a.evq@
    &&& b.evq.actions() == a.evq.actions()
    &&& b.evq.runs() == runs
    &&& b.devmgr@ == a.devmgr@
    &&& b.stdout@ == a.stdout@ + out
    &&& b.logger.pending() == a.logger.pending() + logs
    &&& b.logger.console() == a.logger.console()
    &&& b.logger.handler_count() == a.logger.handler_count()
}

/// `b` is the services `a` after command action `x` ran with the
/// arguments `args`: "evq" writes the handlers to the standard output,
/// "gpio" logs what it finds, "quit" stops the event queue.
pub open spec fn after_action(x: Action, args: Seq<Seq<char>>, a: Services, b: Services) -> bool {
    services_after(
        a,
        b,
        a.evq.runs() && x != Action::Quit,
        if x == Action::ShowEvq {
            evq_listing(a.evq@)
        } else {
            Seq::<u8>::empty()
        },
        if x == Action::Gpio {
            gpio_logs(args, a.devmgr@, a.logger.console())
        } else {
            Seq::<(Level, Seq<char>, Seq<u8>, Option<usize>)>::empty()
        },
    )
}

/// What a line's words call: the action of the first command named like
/// the first word, if there is one.
pub open spec fn line_action(cmds: Seq<(Seq<char>, Seq<char>, Action)>, words: Seq<Seq<char>>) -> Option<Action> {
    if words.len() > 0 && has_cmd(cmds, words[0]) {
        Some(cmds[choose|i: int| first_cmd(cmds, words[0], i)].2)
    } else {
        None
    }
}

/// What handling a line's words sends: what the command they call sends,
/// with the other words as its arguments, then ": <rv>\n" if it fails;
/// ": ErrInval\n" when no command has the first word's name; nothing
/// for a line without words.
pub open spec fn line_output(
    cmds: Seq<(Seq<char>, Seq<char>, Action)>,
    words: Seq<Seq<char>>,
    devs: Seq<(Seq<char>, Kind, Rv)>,
    displays: Seq<Seq<u8>>,
    states: Seq<bool>,
) -> Seq<u8> {
    match line_action(cmds, words) {
        Some(x) => action_output(x, cmds, words.drop_first(), devs, displays, states) + line_report(
            words.len(),
            action_rv(x, words.drop_first()),
        ),
        None => line_report(words.len(), Rv::ErrInval),
    }
}

/// `b` is the services `a` after handling a line's words: what the
/// command they call does, or nothing.
pub open spec fn after_line(
    cmds: Seq<(Seq<char>, Seq<char>, Action)>,
    words: Seq<Seq<char>>,
    a: Services,
    b: Services,
) -> bool {
    match line_action(cmds, words) {
        Some(x) => after_action(x, words.drop_first(), a, b),
        None => services_after(
            a,
            b,
            a.evq.runs(),
            Seq::<u8>::empty(),
            Seq::<(Level, Seq<char>, Seq<u8>, Option<usize>)>::empty(),
        ),
    }
}

/// A line calls the first command registered under its first word.
pub proof fn law_line_calls_first_command(
    cmds: Seq<(Seq<char>, Seq<char>, Action)>,
    words: Seq<Seq<char>>,
    i: int,
)
    requires
        words.len() > 0,
        first_cmd(cmds, words[0], i),
    ensures
        line_action(cmds, words) == Some(cmds[i].2),
{
    assert(has_cmd(cmds, words[0]));
    let c = choose|k: int| first_cmd(cmds, words[0], k);
    assert(first_cmd(cmds, words[0], c));
    if c < i {
        assert(cmds[c].0 != words[0]);
    }
    if i < c {
        assert(cmds[i].0 != words[0]);
    }
}

/// Registering a command whose name no command has yet makes it the
/// command that lines with that name call.
pub proof fn law_new_command_found(
    cmds: Seq<(Seq<char>, Seq<char>, Action)>,
    name: Seq<char>,
    usage: Seq<char>,
    action: Action,
)
    requires
        !has_cmd(cmds, name),
    ensures
        has_cmd(cmds.push((name, usage, action)), name),
        first_cmd(cmds.push((name, usage, action)), name, cmds.len() as int),
{
    let c = cmds.push((name, usage, action));
    assert(c[cmds.len() as int].0 == name);
    assert forall|j: int| 0 <= j < cmds.len() implies (#[trigger] c[j]).0 != name by {
        assert(c[j] == cmds[j]);
    }
}

/// Registering more commands never changes which command a name calls:
/// the first command with a name keeps it.
pub proof fn law_first_registration_wins(
    cmds: Seq<(Seq<char>, Seq<char>, Action)>,
    more: Seq<(Seq<char>, Seq<char>, Action)>,
    name: Seq<char>,
    i: int,
)
    requires
        first_cmd(cmds, name, i),
    ensures
        first_cmd(cmds + more, name, i),
{
    let c = cmds + more;
    assert(c[i] == cmds[i]);
    assert forall|j: int| 0 <= j < i implies (#[trigger] c[j]).0 != name by {
        assert(c[j] == cmds[j]);
    }
}

impl Action {
    /// Runs the command action on console `cli` with the arguments `args`,
    /// for the command manager `mgr`; `displays[i]` and `states[i]` are
    /// device `i`'s own description and pin state. Returns its result code.
    pub fn run(
        self,
        mgr: &Mgr,
        cli: &mut Cli,
        svc: &mut Services,
        args: &[&str],
        displays: &Vec<Vec<u8>>,
        states: &Vec<bool>,
    ) -> (rv: Rv)
        requires
            displays@.len() == old(svc).devmgr@.len(),
            states@.len() == old(svc).devmgr@.len(),
        ensures
            rv == action_rv(self, views(args@)),
            final(cli).output() == old(cli).output() + action_output(
                self,
                mgr@,
                views(args@),
                old(svc).devmgr@,
                byte_texts(displays@),
                states@,
            ),
            after_action(self, views(args@), *old(svc), *final(svc)),
            final(cli).line() == old(cli).line(),
            final(cli).pos() == old(cli).pos(),
            final(cli).escape() == old(cli).escape(),
    {
        match self {
            Action::Help => {
                mgr.help(cli);
                assert(svc.stdout@ =~= old(svc).stdout@ + Seq::<u8>::empty());
                assert(svc.logger.pending() =~= old(svc).logger.pending() + Seq::<(Level, Seq<char>, Seq<u8>, Option<usize>)>::empty());
                assert(cli.output() =~= old(cli).output() + help_text(mgr@));
                Rv::Success
            },
            Action::ShowEvq => {
                let listing = svc.evq.listing();
                append(&mut svc.stdout, listing.as_slice());
                assert(svc.logger.pending() =~= old(svc).logger.pending() + Seq::<(Level, Seq<char>, Seq<u8>, Option<usize>)>::empty());
                assert(cli.output() =~= old(cli).output() + Seq::<u8>::empty());
                Rv::Success
            },
            Action::ShowDevs => {
                svc.devmgr.show(cli, displays);
                assert(svc.stdout@ =~= old(svc).stdout@ + Seq::<u8>::empty());
                assert(svc.logger.pending() =~= old(svc).logger.pending() + Seq::<(Level, Seq<char>, Seq<u8>, Option<usize>)>::empty());
                Rv::Success
            },
            Action::Gpio => {
                let cmd = svc.gpiomgr.command(cli, &svc.devmgr, displays, states, &mut svc.logger, args);
                assert(svc.stdout@ =~= old(svc).stdout@ + Seq::<u8>::empty());
                cmd.rv()
            },
            Action::Quit => {
                svc.evq.stop();
                assert(svc.stdout@ =~= old(svc).stdout@ + Seq::<u8>::empty());
                assert(svc.logger.pending() =~= old(svc).logger.pending() + Seq::<(Level, Seq<char>, Seq<u8>, Option<usize>)>::empty());
                assert(cli.output() =~= old(cli).output() + Seq::<u8>::empty());
                Rv::Success
            },
        }
    }
}

impl View for Mgr {
    type V = Seq<(Seq<char>, Seq<char>, Action)>;

    /// The commands' names, usage texts and actions, in the order they
    /// were registered.
    closed spec fn view(&self) -> Seq<(Seq<char>, Seq<char>, Action)> {
        self.handlers@.map_values(|h: Command| (h.cmd@, h.usage@, h.action))
    }
}

impl Mgr {
    /// A manager that knows one command: "help", which lists the commands.
    /// Logs "Hello" at level `Inf`.
    pub fn new(logger: &mut Logger) -> (m: Mgr)
        ensures
            m@ == seq![("help"@, "show help"@, Action::Help)],
            final(logger).pending() == old(logger).pending().push(
                (Level::Inf, "linux::bms::cli"@, seq![72u8, 101, 108, 108, 111], old(logger).console()),
            ),
            final(logger).console() == old(logger).console(),
            final(logger).handler_count() == old(logger).handler_count(),
    {
        let mut m = Mgr { handlers: Vec::new() };
        m.reg("help", "show help", Action::Help);
        assert(m@ =~= seq![("help"@, "show help"@, Action::Help)]);
        let hello: [u8; 5] = [72u8, 101, 108, 108, 111];
        assert(hello@ =~= seq![72u8, 101, 108, 108, 111]);
        logger.log(Level::Inf, "linux::bms::cli", &hello);
        m
    }

    /// Registers a command that does `action`; returns its index among
    /// the commands.
    pub fn reg(&mut self, cmd: &str, usage: &str, action: Action) -> (i: usize)
        ensures
            final(self)@ == old(self)@.push((cmd@, usage@, action)),
            i == old(self)@.len(),
    {
        let i = self.handlers.len();
        self.handlers.push(
            Command { cmd: String::from_str(cmd), usage: String::from_str(usage), action },
        );
        assert(self@ =~= old(self)@.push((cmd@, usage@, action)));
        i
    }

    /// The number of commands.
    pub fn len(&self) -> (n: usize)
        ensures
            n == self@.len(),
    {
        self.handlers.len()
    }

    /// The name, usage text and action of command `i`.
    pub fn command(&self, i: usize) -> (r: (&str, &str, Action))
        requires
            i < self@.len(),
        ensures
            (r.0@, r.1@, r.2) == self@[i as int],
    {
        let h = &self.handlers[i];
        (h.cmd.as_str(), h.usage.as_str(), h.action)
    }

    /// A new console with an empty line.
    pub fn add_cli(&self) -> (cli: Cli)
        ensures
            cli.wf(),
            cli.line() == Seq::<u8>::empty(),
            cli.pos() == 0,
            cli.escape() == 0,
            cli.output() == Seq::<u8>::empty(),
    {
        Cli { line: Vec::new(), pos: 0, escape: 0, tx: Vec::new() }
    }

    /// The command that a line's parts call: the first one named like the
    /// first part.
    pub fn lookup(&self, parts: &[&str]) -> (r: Option<usize>)
        ensures
            parts@.len() == 0 ==> r is None,
            parts@.len() > 0 ==> (r is Some <==> has_cmd(self@, parts@[0]@)),
            r matches Some(i) ==> first_cmd(self@, parts@[0]@, i as int),
    {
        if parts.len() == 0 {
            return None;
        }
        let name = parts[0];
        let mut i: usize = 0;
        while i < self.handlers.len()
            invariant
                i <= self@.len(),
                self@.len() == self.handlers@.len(),
                parts@.len() > 0,
                name@ == parts@[0]@,
                forall|j: int| 0 <= j < i ==> (#[trigger] self@[j]).0 != name@,
            decreases self.handlers@.len() - i,
        {
            let found = str_eq(self.handlers[i].cmd.as_str(), name);
            assert(self@[i as int] == (
                self.handlers@[i as int].cmd@,
                self.handlers@[i as int].usage@,
                self.handlers@[i as int].action,
            ));
            if found {
                return Some(i);
            }
            i = i + 1;
        }
        None
    }

    /// Sends ": <rv>\n" on the console.
    fn report(cli: &mut Cli, rv: Rv)
        ensures
            final(cli).output() == old(cli).output() + bounded(seq![58u8, 32] + rv_name(rv) + seq![10u8]),
            final(cli).line() == old(cli).line(),
            final(cli).pos() == old(cli).pos(),
            final(cli).escape() == old(cli).escape(),
    {
        let mut msg: Vec<u8> = Vec::new();
        msg.push(58);
        msg.push(32);
        let name = rv.name();
        append(&mut msg, name.as_slice());
        msg.push(10);
        assert(msg@ =~= seq![58u8, 32] + rv_name(rv) + seq![10u8]);
        cli.printf(&msg);
    }

    /// Handles a line's parts: runs the first command named like the first
    /// part, with the other parts as its arguments, and sends ": <rv>\n"
    /// when it fails; sends ": ErrInval\n" when no command has that name.
    /// `displays[i]` and `states[i]` are device `i`'s own description and
    /// pin state.
    pub fn handle_line(
        &self,
        cli: &mut Cli,
        svc: &mut Services,
        parts: &[&str],
        displays: &Vec<Vec<u8>>,
        states: &Vec<bool>,
    )
        requires
            displays@.len() == old(svc).devmgr@.len(),
            states@.len() == old(svc).devmgr@.len(),
        ensures
            final(cli).output() == old(cli).output() + line_output(
                self@,
                views(parts@),
                old(svc).devmgr@,
                byte_texts(displays@),
                states@,
            ),
            after_line(self@, views(parts@), *old(svc), *final(svc)),
            final(cli).line() == old(cli).line(),
            final(cli).pos() == old(cli).pos(),
            final(cli).escape() == old(cli).escape(),
    {
        let ghost words = views(parts@);
        match self.lookup(parts) {
            Some(i) => {
                proof {
                    assert(words[0] == parts@[0]@);
                    law_line_calls_first_command(self@, words, i as int);
                }
                let mut args: Vec<&str> = Vec::new();
                let mut k: usize = 1;
                while k < parts.len()
                    invariant
                        1 <= k <= parts@.len(),
                        args@ == parts@.subrange(1, k as int),
                    decreases parts@.len() - k,
                {
                    args.push(parts[k]);
                    k = k + 1;
                    assert(args@ =~= parts@.subrange(1, k as int));
                }
                assert(views(args@) =~= words.drop_first());
                let (_, _, action) = self.command(i);
                let rv = action.run(self, cli, svc, args.as_slice(), displays, states);
                if rv != Rv::Success {
                    Mgr::report(cli, rv);
                } else {
                    assert(cli.output() =~= old(cli).output() + line_output(
                        self@,
                        words,
                        old(svc).devmgr@,
                        byte_texts(displays@),
                        states@,
                    ));
                }
            },
            None => {
                if parts.len() > 0 {
                    Mgr::report(cli, Rv::ErrInval);
                } else {
                    assert(cli.output() =~= old(cli).output() + Seq::<u8>::empty());
                }
                assert(svc.stdout@ =~= old(svc).stdout@ + Seq::<u8>::empty());
                assert(svc.logger.pending() =~= old(svc).logger.pending() + Seq::<(Level, Seq<char>, Seq<u8>, Option<usize>)>::empty());
            },
        }
    }

    /// The "help" command: sends "<cmd> - <usage>\n" for each command.
    pub fn help(&self, cli: &mut Cli)
        ensures
            final(cli).output() == old(cli).output() + help_text(self@),
            final(cli).line() == old(cli).line(),
            final(cli).pos() == old(cli).pos(),
            final(cli).escape() == old(cli).escape(),
    {
        let ghost start = cli.output();
        let mut i: usize = 0;
        while i < self.handlers.len()
            invariant
                i <= self@.len(),
                self@.len() == self.handlers@.len(),
                cli.output() == start + help_text(self@.take(i as int)),
                cli.line() == old(cli).line(),
                cli.pos() == old(cli).pos(),
                cli.escape() == old(cli).escape(),
            decreases self.handlers@.len() - i,
        {
            let h = &self.handlers[i];
            let mut msg: Vec<u8> = Vec::new();
            append(&mut msg, h.cmd.as_str().as_bytes());
            msg.push(32);
            msg.push(45);
            msg.push(32);
            append(&mut msg, h.usage.as_str().as_bytes());
            msg.push(10);
            assert(self@[i as int] == (h.cmd@, h.usage@, h.action));
            assert(msg@ =~= encode_utf8(h.cmd@) + seq![32u8, 45, 32] + encode_utf8(h.usage@) + seq![10u8]);
            cli.printf(&msg);
            i = i + 1;
            assert(self@.take(i as int).drop_last() =~= self@.take(i - 1));
        }
        assert(self@.take(i as int) =~= self@);
    }
}

/// The char index ranges of the parts that splitting `line` keeps (see
/// `split_ranges`), and whether splitting it overflows.
fn part_ranges(line: &str) -> (r: (Vec<(usize, usize)>, bool))
    ensures
        r.0@.len() == split_ranges(line@).len(),
        forall|t: int|
            0 <= t < r.0@.len() ==> (#[trigger] r.0@[t].0 as int, r.0@[t].1 as int) == split_ranges(
                line@,
            )[t],
        r.1 == split_overflows(line@),
{
    let ghost cs = line@;
    let n = line.unicode_len();
    let mut ranges: Vec<(usize, usize)> = Vec::new();
    let mut i1: usize = 0;
    let mut i2: usize = 0;
    let mut inpart = false;
    while i2 < n
        invariant
            n == cs.len(),
            cs == line@,
            i2 <= n,
            inpart == ends_in_word(cs.take(i2 as int)),
            inpart ==> words(cs.take(i2 as int)).last().0 == i1,
            ranges@.len() == if closed_words(cs.take(i2 as int)).len() <= MAX_PARTS {
                closed_words(cs.take(i2 as int)).len()
            } else {
                MAX_PARTS as nat
            },
            forall|t: int|
                0 <= t < ranges@.len() ==> (#[trigger] ranges@[t].0 as int, ranges@[t].1 as int)
                    == words(cs)[t],
        decreases n - i2,
    {
        let c = line.get_char(i2);
        proof {
            let a = cs.take(i2 as int);
            let b = cs.take(i2 + 1);
            assert(b.drop_last() =~= a);
            assert(b.last() == c);
            if i2 > 0 {
                assert(a.last() == cs[i2 - 1]);
                assert(b[i2 - 1] == cs[i2 - 1]);
            }
            lemma_words_bounds(a);
            lemma_words_bounds(cs);
            lemma_words_prefix(cs, i2 as int);
            lemma_words_prefix(cs, i2 + 1);
        }
        if c == ' ' {
            if inpart {
                if ranges.len() < MAX_PARTS {
                    proof {
                        let k = ranges@.len() as int;
                        let t = closed_words(cs.take(i2 + 1));
                        assert(t =~= words(cs.take(i2 as int)));
                        assert(t[k] == (i1 as int, i2 as int));
                        assert(t[k] == words(cs)[k]);
                    }
                    ranges.push((i1, i2));
                }
                inpart = false;
            }
        } else {
            if !inpart {
                i1 = i2;
                inpart = true;
            }
        }
        i2 = i2 + 1;
    }
    proof {
        assert(cs.take(n as int) =~= cs);
        lemma_words_bounds(cs);
    }
    let mut overflows = false;
    if inpart {
        if ranges.len() < MAX_PARTS {
            assert(words(cs)[ranges@.len() as int] == (i1 as int, n as int));
            ranges.push((i1, n));
        } else {
            overflows = true;
        }
    }
    assert forall|t: int| 0 <= t < ranges@.len() implies (#[trigger] ranges@[t].0 as int,
        ranges@[t].1 as int) == split_ranges(cs)[t] by {
        assert(split_ranges(cs)[t] == words(cs)[t]);
    }
    (ranges, overflows)
}

} // verus!
