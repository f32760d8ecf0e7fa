//! The line-editor engine: consumes input bytes one at a time, maintains the
//! editable command line, interprets arrow-key escape sequences, echoes the
//! exact terminal control sequences that keep the remote display consistent,
//! and produces command and control events.

use vstd::prelude::*;
use vstd::utf8::{decode_utf8, encode_utf8, valid_utf8};

use crate::autocomplete::Autocomplete;
use crate::control;
use crate::history::{count_of, lemma_mru_push_dedup, mru_push, History, LRUHistory};
use crate::serial::Serial;
use crate::text::{bytes_to_text, decimal, push_decimal, split_at_first_space, split_first_space};
use crate::{Input, ShellError};

verus! {

/// Where the engine stands inside an ANSI escape sequence.
#[derive(Clone, Copy, Debug, PartialEq, Eq, Structural)]
pub enum EscState {
    /// Ordinary input.
    Idle,
    /// An `ESC` byte has been consumed.
    SawEscape,
    /// `ESC [` has been consumed: the next byte finishes the sequence.
    SawCsi,
}

/// `ESC [ s ESC [ K`: save the cursor, then erase to the end of the line.
pub open spec fn save_erase_seq() -> Seq<u8> {
    seq![0x1bu8, 0x5bu8, 0x73u8, 0x1bu8, 0x5bu8, 0x4bu8]
}

/// `ESC [ u`: restore the saved cursor.
pub open spec fn restore_seq() -> Seq<u8> {
    seq![0x1bu8, 0x5bu8, 0x75u8]
}

/// `ESC [ K`: erase to the end of the line.
pub open spec fn erase_eol_seq() -> Seq<u8> {
    seq![0x1bu8, 0x5bu8, 0x4bu8]
}

/// `ESC [ D`: one column left.
pub open spec fn left_seq() -> Seq<u8> {
    seq![0x1bu8, 0x5bu8, 0x44u8]
}

/// `ESC [ C`: one column right.
pub open spec fn right_seq() -> Seq<u8> {
    seq![0x1bu8, 0x5bu8, 0x43u8]
}

/// `BS SP BS`: wipe the character just left of the cursor.
pub open spec fn backspace_erase_seq() -> Seq<u8> {
    seq![0x08u8, 0x20u8, 0x08u8]
}

/// `ESC [ H ESC [ 2 J`: home the cursor and clear the screen.
pub open spec fn clear_screen_seq() -> Seq<u8> {
    seq![0x1bu8, 0x5bu8, 0x48u8, 0x1bu8, 0x5bu8, 0x32u8, 0x4au8]
}

/// `ESC [ {n} D`: `n` columns left.
pub open spec fn left_by_seq(n: nat) -> Seq<u8> {
    seq![0x1bu8, 0x5bu8] + decimal(n) + seq![0x44u8]
}

/// The line-editor/shell engine.
///
/// It owns the line buffer, cursor, and escape-parse state; it drives the
/// history store and autocomplete provider supplied at construction; and it
/// exchanges bytes with the transport through a [`Serial`] endpoint.
pub struct UShell<A, H, const CMD_LEN: usize> {
    serial: Serial,
    autocomplete: A,
    history: H,
    editor_buf: Vec<u8>,
    cursor: usize,
    parse: EscState,
    autocomplete_on: bool,
    history_on: bool,
}

impl<A: Autocomplete, H: History, const CMD_LEN: usize> UShell<A, H, CMD_LEN> {
    /// The bytes of the line being edited.
    pub closed spec fn line(&self) -> Seq<u8> {
        self.editor_buf@
    }

    /// The insertion point, in `[0, line().len()]`.
    pub closed spec fn cursor_pos(&self) -> int {
        self.cursor as int
    }

    /// The escape-parse state.
    pub closed spec fn parse_state(&self) -> EscState {
        self.parse
    }

    /// Every byte the engine has written to the transport.
    pub closed spec fn echoed(&self) -> Seq<u8> {
        self.serial.outgoing()
    }

    /// The received bytes not yet consumed.
    pub closed spec fn pending(&self) -> Seq<u8> {
        self.serial.incoming()
    }

    /// The history store.
    pub closed spec fn hist(&self) -> H {
        self.history
    }

    /// The autocomplete provider.
    pub closed spec fn compl(&self) -> A {
        self.autocomplete
    }

    /// Whether the tab key asks the autocomplete provider.
    pub closed spec fn completion_enabled(&self) -> bool {
        self.autocomplete_on
    }

    /// Whether the arrow keys traverse the history store.
    pub closed spec fn history_enabled(&self) -> bool {
        self.history_on
    }

    /// The engine's invariant: the cursor stays within the line, the line
    /// within its capacity, and both subsystems stay well formed.
    pub closed spec fn wf(&self) -> bool {
        &&& self.editor_buf@.len() <= CMD_LEN
        &&& self.cursor <= self.editor_buf@.len()
        &&& self.history.inv()
        &&& self.autocomplete.inv()
    }

    /// In every reachable state, `0 <= cursor <= length <= capacity`.
    pub proof fn lemma_wf_bounds(&self)
        requires
            self.wf(),
        ensures
            0 <= self.cursor_pos() <= self.line().len() <= CMD_LEN,
            self.hist().inv(),
            self.compl().inv(),
    {
    }

    /// The line and cursor are the same in both states.
    pub open spec fn editor_unchanged(pre: Self, post: Self) -> bool {
        &&& post.line() == pre.line()
        &&& post.cursor_pos() == pre.cursor_pos()
    }

    /// Neither byte queue moved.
    pub open spec fn io_unchanged(pre: Self, post: Self) -> bool {
        &&& post.echoed() == pre.echoed()
        &&& post.pending() == pre.pending()
    }

    /// The two subsystems are the same values in both states.
    pub open spec fn parts_unchanged(pre: Self, post: Self) -> bool {
        &&& post.hist() == pre.hist()
        &&& post.compl() == pre.compl()
    }

    /// The mode flags are the same in both states.
    pub open spec fn flags_unchanged(pre: Self, post: Self) -> bool {
        &&& post.completion_enabled() == pre.completion_enabled()
        &&& post.history_enabled() == pre.history_enabled()
    }

    /// Only a BELL was echoed, and the editor did not move.
    pub open spec fn bell_only(pre: Self, post: Self) -> bool {
        &&& Self::editor_unchanged(pre, post)
        &&& post.echoed() == pre.echoed().push(control::BELL)
    }

    /// Builds an engine around a transport endpoint, an autocomplete
    /// provider, and a history store.  Both features start enabled; the line
    /// is empty.
    pub fn new(serial: Serial, autocomplete: A, history: H) -> (r: Self)
        requires
            autocomplete.inv(),
            history.inv(),
        ensures
            r.wf(),
            r.line() == Seq::<u8>::empty(),
            r.cursor_pos() == 0,
            r.parse_state() == EscState::Idle,
            r.echoed() == serial.outgoing(),
            r.pending() == serial.incoming(),
            r.hist() == history,
            r.compl() == autocomplete,
            r.completion_enabled(),
            r.history_enabled(),
    {
        UShell {
            serial,
            autocomplete,
            history,
            cursor: 0,
            editor_buf: Vec::new(),
            parse: EscState::Idle,
            autocomplete_on: true,
            history_on: true,
        }
    }

    /// Enables or disables autocompletion.
    pub fn autocomplete(&mut self, autocomplete_on: bool)
        ensures
            Self::editor_unchanged(*old(self), *final(self)),
            Self::io_unchanged(*old(self), *final(self)),
            Self::parts_unchanged(*old(self), *final(self)),
            final(self).parse_state() == old(self).parse_state(),
            final(self).completion_enabled() == autocomplete_on,
            final(self).history_enabled() == old(self).history_enabled(),
            old(self).wf() ==> final(self).wf(),
    {
        self.autocomplete_on = autocomplete_on;
    }

    /// Enables or disables history traversal.
    pub fn history(&mut self, history_on: bool)
        ensures
            Self::editor_unchanged(*old(self), *final(self)),
            Self::io_unchanged(*old(self), *final(self)),
            Self::parts_unchanged(*old(self), *final(self)),
            final(self).parse_state() == old(self).parse_state(),
            final(self).history_enabled() == history_on,
            final(self).completion_enabled() == old(self).completion_enabled(),
            old(self).wf() ==> final(self).wf(),
    {
        self.history_on = history_on;
    }

    /// The autocomplete provider, for reconfiguration by the host.
    pub fn get_autocomplete_mut(&mut self) -> (r: &mut A)
        ensures
            *r == old(self).compl(),
            final(self).compl() == *final(r),
            Self::editor_unchanged(*old(self), *final(self)),
            Self::io_unchanged(*old(self), *final(self)),
            Self::flags_unchanged(*old(self), *final(self)),
            final(self).parse_state() == old(self).parse_state(),
            final(self).hist() == old(self).hist(),
    {
        &mut self.autocomplete
    }

    /// The history store, for direct host access.
    pub fn get_history_mut(&mut self) -> (r: &mut H)
        ensures
            *r == old(self).hist(),
            final(self).hist() == *final(r),
            Self::editor_unchanged(*old(self), *final(self)),
            Self::io_unchanged(*old(self), *final(self)),
            Self::flags_unchanged(*old(self), *final(self)),
            final(self).parse_state() == old(self).parse_state(),
            final(self).compl() == old(self).compl(),
    {
        &mut self.history
    }

    /// The transport endpoint: the driver feeds received bytes into it and
    /// drains the echoed bytes from it.
    pub fn get_serial_mut(&mut self) -> (r: &mut Serial)
        ensures
            *r == old(self).serial_part(),
            final(self).echoed() == final(r).outgoing(),
            final(self).pending() == final(r).incoming(),
            Self::editor_unchanged(*old(self), *final(self)),
            Self::parts_unchanged(*old(self), *final(self)),
            Self::flags_unchanged(*old(self), *final(self)),
            final(self).parse_state() == old(self).parse_state(),
            old(self).wf() ==> final(self).wf(),
    {
        &mut self.serial
    }

    /// The transport endpoint as a value, for contracts about
    /// [`Self::get_serial_mut`].
    pub closed spec fn serial_part(&self) -> Serial {
        self.serial
    }

    /// Discards the buffered line, the cursor position, and any partial
    /// escape sequence.  History contents are untouched.
    pub fn reset(&mut self)
        ensures
            final(self).line() == Seq::<u8>::empty(),
            final(self).cursor_pos() == 0,
            final(self).parse_state() == EscState::Idle,
            final(self).echoed() == old(self).echoed(),
            final(self).pending() == old(self).pending(),
            final(self).hist() == old(self).hist(),
            final(self).compl() == old(self).compl(),
            final(self).completion_enabled() == old(self).completion_enabled(),
            final(self).history_enabled() == old(self).history_enabled(),
            old(self).wf() ==> final(self).wf(),
    {
        self.parse = EscState::Idle;
        self.cursor = 0;
        self.editor_buf.clear();
    }

    /// Writes the BELL byte: the operation-rejected signal.
    fn ring(&mut self)
        ensures
            Self::editor_unchanged(*old(self), *final(self)),
            Self::parts_unchanged(*old(self), *final(self)),
            Self::flags_unchanged(*old(self), *final(self)),
            final(self).parse_state() == old(self).parse_state(),
            final(self).echoed() == old(self).echoed().push(control::BELL),
            final(self).pending() == old(self).pending(),
            old(self).wf() ==> final(self).wf(),
    {
        self.serial.write(control::BELL);
    }

    /// Signals an invalid operation to the operator.
    pub fn bell(&mut self) -> (r: crate::ShellResult)
        ensures
            r is Ok,
            Self::editor_unchanged(*old(self), *final(self)),
            Self::parts_unchanged(*old(self), *final(self)),
            Self::flags_unchanged(*old(self), *final(self)),
            final(self).parse_state() == old(self).parse_state(),
            final(self).echoed() == old(self).echoed().push(control::BELL),
            final(self).pending() == old(self).pending(),
            old(self).wf() ==> final(self).wf(),
    {
        self.ring();
        Ok(())
    }

    /// Empties the line and clears the remote screen.
    pub fn clear(&mut self) -> (r: crate::ShellResult)
        requires
            old(self).wf(),
        ensures
            r is Ok,
            final(self).wf(),
            final(self).line() == Seq::<u8>::empty(),
            final(self).cursor_pos() == 0,
            final(self).parse_state() == old(self).parse_state(),
            final(self).echoed() == old(self).echoed() + clear_screen_seq(),
            final(self).pending() == old(self).pending(),
            final(self).hist() == old(self).hist(),
            final(self).compl() == old(self).compl(),
            final(self).completion_enabled() == old(self).completion_enabled(),
            final(self).history_enabled() == old(self).history_enabled(),
    {
        self.cursor = 0;
        self.editor_buf.clear();
        self.serial.write(0x1b);
        self.serial.write(0x5b);
        self.serial.write(0x48);
        self.serial.write(0x1b);
        self.serial.write(0x5b);
        self.serial.write(0x32);
        self.serial.write(0x4a);
        proof {
            assert(self.echoed() =~= old(self).echoed() + clear_screen_seq());
        }
        Ok(())
    }

    /// Everything except the echo queue is the same, and `bytes` were
    /// appended to it.
    pub open spec fn echo_step(pre: Self, post: Self, bytes: Seq<u8>) -> bool {
        &&& Self::editor_unchanged(pre, post)
        &&& Self::parts_unchanged(pre, post)
        &&& Self::flags_unchanged(pre, post)
        &&& post.parse_state() == pre.parse_state()
        &&& post.pending() == pre.pending()
        &&& post.echoed() == pre.echoed() + bytes
    }

    /// The effect of typing the printable byte `byte`: a full line is
    /// refused with a BELL; a mid-line insert shifts the tail right, echoes
    /// the byte, and repaints the tail between save and restore; an append
    /// just echoes the byte.
    pub open spec fn insert_post(pre: Self, post: Self, byte: u8) -> bool {
        if pre.line().len() == CMD_LEN as int {
            Self::bell_only(pre, post)
        } else if pre.cursor_pos() < pre.line().len() {
            &&& post.line() == pre.line().insert(pre.cursor_pos(), byte)
            &&& post.cursor_pos() == pre.cursor_pos() + 1
            &&& post.echoed() == pre.echoed() + seq![byte] + save_erase_seq() + post.line().skip(
                post.cursor_pos(),
            ) + restore_seq()
        } else {
            &&& post.line() == pre.line().push(byte)
            &&& post.cursor_pos() == pre.cursor_pos() + 1
            &&& post.echoed() == pre.echoed().push(byte)
        }
    }

    /// The effect of backspace: at column zero a BELL; mid-line, the byte
    /// before the cursor goes away and the tail is repainted; at the end of
    /// the line, the last byte is wiped with `BS SP BS`.
    pub open spec fn delete_post(pre: Self, post: Self) -> bool {
        if pre.cursor_pos() == 0 {
            Self::bell_only(pre, post)
        } else if pre.cursor_pos() < pre.line().len() {
            &&& post.line() == pre.line().remove(pre.cursor_pos() - 1)
            &&& post.cursor_pos() == pre.cursor_pos() - 1
            &&& post.echoed() == pre.echoed() + left_seq() + save_erase_seq() + post.line().skip(
                post.cursor_pos(),
            ) + restore_seq()
        } else {
            &&& post.line() == pre.line().drop_last()
            &&& post.cursor_pos() == pre.cursor_pos() - 1
            &&& post.echoed() == pre.echoed() + backspace_erase_seq()
        }
    }

    /// The effect of the left arrow.
    pub open spec fn left_post(pre: Self, post: Self) -> bool {
        if pre.cursor_pos() > 0 {
            &&& post.line() == pre.line()
            &&& post.cursor_pos() == pre.cursor_pos() - 1
            &&& post.echoed() == pre.echoed() + left_seq()
        } else {
            Self::bell_only(pre, post)
        }
    }

    /// The effect of the right arrow.
    pub open spec fn right_post(pre: Self, post: Self) -> bool {
        if pre.cursor_pos() < pre.line().len() {
            &&& post.line() == pre.line()
            &&& post.cursor_pos() == pre.cursor_pos() + 1
            &&& post.echoed() == pre.echoed() + right_seq()
        } else {
            Self::bell_only(pre, post)
        }
    }

    /// The effect of replacing the whole line with `text`: the cursor
    /// returns to column zero, the displayed line is erased, and the new
    /// text is written; buffer, cursor, and length all now reflect `text`.
    pub open spec fn replace_post(pre: Self, post: Self, text: Seq<char>) -> bool {
        &&& post.line() == encode_utf8(text)
        &&& post.cursor_pos() == post.line().len()
        &&& post.echoed() == pre.echoed() + (if pre.cursor_pos() > 0 {
            left_by_seq(pre.cursor_pos() as nat)
        } else {
            Seq::<u8>::empty()
        }) + erase_eol_seq() + encode_utf8(text)
    }

    /// The effect of the up arrow: permitted only at the end of the line
    /// with history enabled; it steps the traversal one entry back and
    /// replaces the line with that entry, signalling a BELL (with the
    /// traversal still stepped only if an entry was found) otherwise.
    pub open spec fn up_post(pre: Self, post: Self) -> bool {
        if pre.cursor_pos() != pre.line().len() || !pre.history_enabled() {
            &&& Self::bell_only(pre, post)
            &&& post.hist() == pre.hist()
        } else if pre.hist().position() == pre.hist().entries().len() {
            &&& Self::bell_only(pre, post)
            &&& post.hist().entries() == pre.hist().entries()
            &&& post.hist().position() == pre.hist().position()
        } else {
            let entry = pre.hist().entries()[pre.hist().position()];
            &&& post.hist().entries() == pre.hist().entries()
            &&& post.hist().position() == pre.hist().position() + 1
            &&& if encode_utf8(entry).len() > CMD_LEN as int {
                Self::bell_only(pre, post)
            } else {
                Self::replace_post(pre, post, entry)
            }
        }
    }

    /// The effect of the down arrow, symmetric to [`Self::up_post`], toward
    /// newer entries.
    pub open spec fn down_post(pre: Self, post: Self) -> bool {
        if pre.cursor_pos() != pre.line().len() || !pre.history_enabled() {
            &&& Self::bell_only(pre, post)
            &&& post.hist() == pre.hist()
        } else if pre.hist().position() == 0 {
            &&& Self::bell_only(pre, post)
            &&& post.hist().entries() == pre.hist().entries()
            &&& post.hist().position() == 0
        } else {
            let entry = pre.hist().entries()[pre.hist().position() - 1];
            &&& post.hist().entries() == pre.hist().entries()
            &&& post.hist().position() == pre.hist().position() - 1
            &&& if encode_utf8(entry).len() > CMD_LEN as int {
                Self::bell_only(pre, post)
            } else {
                Self::replace_post(pre, post, entry)
            }
        }
    }

    /// Echoes `editor_buf[from..]`.
    fn emit_tail(&mut self, from: usize)
        requires
            old(self).wf(),
            from <= old(self).line().len(),
        ensures
            final(self).wf(),
            Self::echo_step(*old(self), *final(self), old(self).line().skip(from as int)),
    {
        let mut k: usize = from;
        while k < self.editor_buf.len()
            invariant
                old(self).wf(),
                self.wf(),
                from <= k <= self.editor_buf@.len(),
                Self::editor_unchanged(*old(self), *self),
                Self::parts_unchanged(*old(self), *self),
                Self::flags_unchanged(*old(self), *self),
                self.parse_state() == old(self).parse_state(),
                self.pending() == old(self).pending(),
                self.echoed() == old(self).echoed() + old(self).line().subrange(
                    from as int,
                    k as int,
                ),
            decreases self.editor_buf@.len() - k,
        {
            let b = self.editor_buf[k];
            self.serial.write(b);
            proof {
                assert(old(self).line().subrange(from as int, k as int).push(b) =~= old(
                    self,
                ).line().subrange(from as int, k + 1));
            }
            k += 1;
        }
        proof {
            assert(old(self).line().subrange(from as int, old(self).line().len() as int) =~= old(
                self,
            ).line().skip(from as int));
        }
    }

    /// Echoes `ESC [ {n} D`: the cursor moves `n` columns left.
    fn emit_left_by(&mut self, n: usize)
        requires
            old(self).wf(),
        ensures
            final(self).wf(),
            Self::echo_step(*old(self), *final(self), left_by_seq(n as nat)),
    {
        self.serial.write(0x1b);
        self.serial.write(0x5b);
        let mut digits: Vec<u8> = Vec::new();
        push_decimal(&mut digits, n);
        let ghost mid = self.echoed();
        let mut k: usize = 0;
        while k < digits.len()
            invariant
                old(self).wf(),
                self.wf(),
                0 <= k <= digits@.len(),
                Self::editor_unchanged(*old(self), *self),
                Self::parts_unchanged(*old(self), *self),
                Self::flags_unchanged(*old(self), *self),
                self.parse_state() == old(self).parse_state(),
                self.pending() == old(self).pending(),
                self.echoed() == mid + digits@.subrange(0, k as int),
                mid == old(self).echoed() + seq![0x1bu8, 0x5bu8],
                digits@ == decimal(n as nat),
            decreases digits@.len() - k,
        {
            let b = digits[k];
            self.serial.write(b);
            proof {
                assert(digits@.subrange(0, k as int).push(b) =~= digits@.subrange(0, k + 1));
            }
            k += 1;
        }
        self.serial.write(0x44);
        proof {
            assert(digits@.subrange(0, digits@.len() as int) =~= digits@);
            assert(final(self).echoed() =~= old(self).echoed() + left_by_seq(n as nat));
        }
    }

    /// Inserts a printable byte at the cursor, echoing what is needed to
    /// keep the display consistent; a full buffer is refused with a BELL.
    fn write_at_cursor(&mut self, byte: u8)
        requires
            old(self).wf(),
        ensures
            final(self).wf(),
            Self::insert_post(*old(self), *final(self), byte),
            Self::parts_unchanged(*old(self), *final(self)),
            Self::flags_unchanged(*old(self), *final(self)),
            final(self).parse_state() == old(self).parse_state(),
            final(self).pending() == old(self).pending(),
    {
        if self.editor_buf.len() == CMD_LEN {
            self.ring();
        } else if self.cursor < self.editor_buf.len() {
            self.serial.write(byte);
            self.editor_buf.insert(self.cursor, byte);
            self.cursor = self.cursor + 1;
            self.serial.write(0x1b);
            self.serial.write(0x5b);
            self.serial.write(0x73);
            self.serial.write(0x1b);
            self.serial.write(0x5b);
            self.serial.write(0x4b);
            self.emit_tail(self.cursor);
            self.serial.write(0x1b);
            self.serial.write(0x5b);
            self.serial.write(0x75);
            proof {
                assert(final(self).echoed() =~= old(self).echoed() + seq![byte] + save_erase_seq()
                    + final(self).line().skip(final(self).cursor_pos()) + restore_seq());
            }
        } else {
            self.serial.write(byte);
            self.editor_buf.push(byte);
            self.cursor = self.cursor + 1;
        }
    }

    /// Deletes the byte before the cursor, echoing what is needed to keep
    /// the display consistent; at column zero a BELL is echoed instead.
    fn delete_at_cursor(&mut self)
        requires
            old(self).wf(),
        ensures
            final(self).wf(),
            Self::delete_post(*old(self), *final(self)),
            Self::parts_unchanged(*old(self), *final(self)),
            Self::flags_unchanged(*old(self), *final(self)),
            final(self).parse_state() == old(self).parse_state(),
            final(self).pending() == old(self).pending(),
    {
        if self.cursor == 0 {
            self.ring();
        } else if self.cursor < self.editor_buf.len() {
            let _ = self.editor_buf.remove(self.cursor - 1);
            self.cursor = self.cursor - 1;
            self.serial.write(0x1b);
            self.serial.write(0x5b);
            self.serial.write(0x44);
            self.serial.write(0x1b);
            self.serial.write(0x5b);
            self.serial.write(0x73);
            self.serial.write(0x1b);
            self.serial.write(0x5b);
            self.serial.write(0x4b);
            self.emit_tail(self.cursor);
            self.serial.write(0x1b);
            self.serial.write(0x5b);
            self.serial.write(0x75);
            proof {
                assert(final(self).echoed() =~= old(self).echoed() + left_seq() + save_erase_seq()
                    + final(self).line().skip(final(self).cursor_pos()) + restore_seq());
            }
        } else {
            let _ = self.editor_buf.pop();
            self.cursor = self.cursor - 1;
            self.serial.write(0x08);
            self.serial.write(0x20);
            self.serial.write(0x08);
            proof {
                assert(final(self).echoed() =~= old(self).echoed() + backspace_erase_seq());
            }
        }
    }

    /// Moves the cursor one column left, or signals a BELL at the start of
    /// the line.
    fn dpad_left(&mut self)
        requires
            old(self).wf(),
        ensures
            final(self).wf(),
            Self::left_post(*old(self), *final(self)),
            Self::parts_unchanged(*old(self), *final(self)),
            Self::flags_unchanged(*old(self), *final(self)),
            final(self).parse_state() == old(self).parse_state(),
            final(self).pending() == old(self).pending(),
    {
        if self.cursor > 0 {
            self.cursor = self.cursor - 1;
            self.serial.write(0x1b);
            self.serial.write(0x5b);
            self.serial.write(0x44);
            proof {
                assert(final(self).echoed() =~= old(self).echoed() + left_seq());
            }
        } else {
            self.ring();
        }
    }

    /// Moves the cursor one column right, or signals a BELL at the end of
    /// the line.
    fn dpad_right(&mut self)
        requires
            old(self).wf(),
        ensures
            final(self).wf(),
            Self::right_post(*old(self), *final(self)),
            Self::parts_unchanged(*old(self), *final(self)),
            Self::flags_unchanged(*old(self), *final(self)),
            final(self).parse_state() == old(self).parse_state(),
            final(self).pending() == old(self).pending(),
    {
        if self.cursor < self.editor_buf.len() {
            self.cursor = self.cursor + 1;
            self.serial.write(0x1b);
            self.serial.write(0x5b);
            self.serial.write(0x43);
            proof {
                assert(final(self).echoed() =~= old(self).echoed() + right_seq());
            }
        } else {
            self.ring();
        }
    }

    /// Replaces the whole line with `line`, echoing a return to column
    /// zero, an erase, and the new text.
    fn replace_editor_buf(&mut self, line: &str)
        requires
            old(self).wf(),
            encode_utf8(line@).len() <= CMD_LEN as int,
        ensures
            final(self).wf(),
            Self::replace_post(*old(self), *final(self), line@),
            Self::parts_unchanged(*old(self), *final(self)),
            Self::flags_unchanged(*old(self), *final(self)),
            final(self).parse_state() == old(self).parse_state(),
            final(self).pending() == old(self).pending(),
    {
        if self.cursor > 0 {
            self.emit_left_by(self.cursor);
        }
        let bytes = line.as_bytes_vec();
        self.editor_buf = bytes;
        self.cursor = self.editor_buf.len();
        self.serial.write(0x1b);
        self.serial.write(0x5b);
        self.serial.write(0x4b);
        self.emit_tail(0);
        proof {
            assert(final(self).line().skip(0) =~= final(self).line());
            if old(self).cursor_pos() > 0 {
                assert(final(self).echoed() =~= old(self).echoed() + left_by_seq(
                    old(self).cursor_pos() as nat,
                ) + erase_eol_seq() + encode_utf8(line@));
            } else {
                assert(final(self).echoed() =~= old(self).echoed() + Seq::<u8>::empty()
                    + erase_eol_seq() + encode_utf8(line@));
            }
        }
    }

    /// Steps the history traversal one entry back and replaces the line
    /// with it; a BELL signals a forbidden or exhausted traversal, or an
    /// entry too long for this engine's buffer.
    fn dpad_up(&mut self)
        requires
            old(self).wf(),
        ensures
            final(self).wf(),
            Self::up_post(*old(self), *final(self)),
            final(self).compl() == old(self).compl(),
            Self::flags_unchanged(*old(self), *final(self)),
            final(self).parse_state() == old(self).parse_state(),
            final(self).pending() == old(self).pending(),
    {
        if self.cursor != self.editor_buf.len() || !self.history_on {
            self.ring();
            return;
        }
        proof {
            self.history.lemma_inv_bounds();
        }
        match self.history.go_back() {
            None => {
                self.ring();
            }
            Some(entry) => {
                let blen = entry.as_str().as_bytes().len();
                if blen > CMD_LEN {
                    self.ring();
                } else {
                    self.replace_editor_buf(entry.as_str());
                }
            }
        }
    }

    /// Steps the history traversal one entry forward and replaces the line
    /// with it, symmetric to [`Self::dpad_up`].
    fn dpad_down(&mut self)
        requires
            old(self).wf(),
        ensures
            final(self).wf(),
            Self::down_post(*old(self), *final(self)),
            final(self).compl() == old(self).compl(),
            Self::flags_unchanged(*old(self), *final(self)),
            final(self).parse_state() == old(self).parse_state(),
            final(self).pending() == old(self).pending(),
    {
        if self.cursor != self.editor_buf.len() || !self.history_on {
            self.ring();
            return;
        }
        proof {
            self.history.lemma_inv_bounds();
        }
        match self.history.go_forward() {
            None => {
                self.ring();
            }
            Some(entry) => {
                let blen = entry.as_str().as_bytes().len();
                if blen > CMD_LEN {
                    self.ring();
                } else {
                    self.replace_editor_buf(entry.as_str());
                }
            }
        }
    }

    /// How the editor changes for one possible provider answer `sug`: a
    /// BELL for none, and for a suffix that fits, the suffix appended at
    /// the cursor after an erase-to-end-of-line; one that would overflow
    /// the buffer is refused with a BELL.
    pub open spec fn suggest_outcome(pre: Self, post: Self, sug: Option<Seq<char>>) -> bool {
        match sug {
            None => Self::bell_only(pre, post),
            Some(sfx) => {
                let sb = encode_utf8(sfx);
                if pre.cursor_pos() + sb.len() > CMD_LEN as int {
                    Self::bell_only(pre, post)
                } else {
                    &&& post.line() == pre.line().take(pre.cursor_pos()) + sb
                    &&& post.cursor_pos() == pre.cursor_pos() + sb.len()
                    &&& post.echoed() == pre.echoed() + erase_eol_seq() + sb
                }
            },
        }
    }

    /// The effect of a suggestion request: an undecodable prefix aborts
    /// the call untouched; otherwise some answer the provider may give for
    /// the decoded prefix took effect as [`Self::suggest_outcome`] says.
    pub open spec fn suggest_post(pre: Self, post: Self, r: Result<(), ShellError>) -> bool {
        let pb = pre.line().take(pre.cursor_pos());
        if !valid_utf8(pb) {
            &&& r == Err::<(), ShellError>(ShellError::BadInputError)
            &&& Self::editor_unchanged(pre, post)
            &&& post.echoed() == pre.echoed()
        } else {
            &&& r is Ok
            &&& exists|sug: Option<Seq<char>>|
                #[trigger] pre.compl().suggests(decode_utf8(pb), sug) && Self::suggest_outcome(
                    pre,
                    post,
                    sug,
                )
        }
    }

    /// Two states that agree on everything the dispatch relation reads
    /// (the byte queues aside) yield the same dispatch outcomes.
    pub open spec fn same_obs(pre1: Self, pre2: Self) -> bool {
        &&& pre1.line() == pre2.line()
        &&& pre1.cursor_pos() == pre2.cursor_pos()
        &&& pre1.parse_state() == pre2.parse_state()
        &&& pre1.echoed() == pre2.echoed()
        &&& pre1.hist() == pre2.hist()
        &&& pre1.compl() == pre2.compl()
        &&& pre1.completion_enabled() == pre2.completion_enabled()
        &&& pre1.history_enabled() == pre2.history_enabled()
    }

    /// The dispatch relation does not read the byte queues of its pre
    /// state.
    proof fn lemma_dispatch_frame(
        pre1: Self,
        pre2: Self,
        post: Self,
        b: u8,
        r: Result<Option<Input>, ShellError>,
    )
        requires
            Self::same_obs(pre1, pre2),
            Self::dispatch_post(pre1, post, b, r),
        ensures
            Self::dispatch_post(pre2, post, b, r),
    {
        if pre1.parse_state() == EscState::Idle && b != control::ESC && b == control::TAB
            && pre1.completion_enabled() {
            let pb = pre1.line().take(pre1.cursor_pos());
            if valid_utf8(pb) {
                let sug = choose|sug: Option<Seq<char>>|
                    #[trigger] pre1.compl().suggests(decode_utf8(pb), sug)
                        && Self::suggest_outcome(pre1, post, sug);
                assert(pre2.compl().suggests(
                    decode_utf8(pre2.line().take(pre2.cursor_pos())),
                    sug,
                ));
                assert(Self::suggest_outcome(pre2, post, sug));
            }
        }
    }

    /// The effect of submitting the line: an undecodable line aborts the
    /// call untouched; a line the store refuses aborts with `HistoryError`;
    /// otherwise the line is recorded, the editor resets to an empty line at
    /// column zero, and the decoded text is handed out split at its first
    /// space.
    pub open spec fn submit_post(pre: Self, post: Self, r: Result<Input, ShellError>) -> bool {
        if !valid_utf8(pre.line()) {
            &&& r == Err::<Input, ShellError>(ShellError::BadInputError)
            &&& Self::editor_unchanged(pre, post)
            &&& post.hist() == pre.hist()
            &&& post.echoed() == pre.echoed()
        } else {
            let text = decode_utf8(pre.line());
            if !pre.hist().accepts(text) {
                &&& r == Err::<Input, ShellError>(ShellError::HistoryError)
                &&& Self::editor_unchanged(pre, post)
                &&& post.hist().entries() == pre.hist().entries()
                &&& post.hist().position() == pre.hist().position()
                &&& post.echoed() == pre.echoed()
            } else {
                &&& post.line() == Seq::<u8>::empty()
                &&& post.cursor_pos() == 0
                &&& post.hist().entries() == pre.hist().pushed(text)
                &&& post.hist().position() == 0
                &&& post.echoed() == pre.echoed()
                &&& (r matches Ok(input) && input matches Input::Command(pair) && pair.0@
                    == split_at_first_space(text).0 && pair.1@ == split_at_first_space(text).1)
            }
        }
    }

    /// Asks the autocomplete provider to finish the text before the cursor.
    fn suggest(&mut self) -> (r: crate::ShellResult)
        requires
            old(self).wf(),
        ensures
            final(self).wf(),
            Self::suggest_post(*old(self), *final(self), r),
            final(self).hist() == old(self).hist(),
            final(self).compl() == old(self).compl(),
            Self::flags_unchanged(*old(self), *final(self)),
            final(self).parse_state() == old(self).parse_state(),
            final(self).pending() == old(self).pending(),
    {
        let c = self.cursor;
        let answer = match bytes_to_text(&self.editor_buf.as_slice()[0..c]) {
            None => {
                return Err(ShellError::BadInputError);
            },
            Some(p) => self.autocomplete.suggest(p),
        };
        let ghost sug = answer.deep_view();
        proof {
            assert(old(self).compl().suggests(
                decode_utf8(old(self).line().take(old(self).cursor_pos())),
                sug,
            ));
        }
        match answer {
            None => {
                self.ring();
                Ok(())
            },
            Some(suffix) => {
                let mut sb = suffix.as_str().as_bytes_vec();
                if sb.len() > CMD_LEN - c {
                    self.ring();
                    Ok(())
                } else {
                    self.editor_buf.truncate(c);
                    proof {
                        assert(self.editor_buf@ =~= old(self).line().take(c as int));
                    }
                    self.editor_buf.append(&mut sb);
                    self.cursor = self.editor_buf.len();
                    self.serial.write(0x1b);
                    self.serial.write(0x5b);
                    self.serial.write(0x4b);
                    self.emit_tail(c);
                    proof {
                        assert(final(self).line().skip(c as int) =~= encode_utf8(suffix@));
                        assert(final(self).echoed() =~= old(self).echoed() + erase_eol_seq()
                            + encode_utf8(suffix@));
                    }
                    Ok(())
                }
            },
        }
    }

    /// Submits the line: records it in history, resets the editor, and
    /// returns the command event.
    fn submit_line(&mut self) -> (r: Result<Input, ShellError>)
        requires
            old(self).wf(),
        ensures
            final(self).wf(),
            Self::submit_post(*old(self), *final(self), r),
            final(self).compl() == old(self).compl(),
            Self::flags_unchanged(*old(self), *final(self)),
            final(self).parse_state() == old(self).parse_state(),
            final(self).pending() == old(self).pending(),
    {
        let text: String = match bytes_to_text(self.editor_buf.as_slice()) {
            None => {
                return Err(ShellError::BadInputError);
            },
            Some(s) => s.to_owned(),
        };
        match self.history.push(text.as_str()) {
            Err(_) => Err(ShellError::HistoryError),
            Ok(_) => {
                self.editor_buf.clear();
                self.cursor = 0;
                let (cmd, args) = split_first_space(text.as_str());
                Ok(Input::Command((cmd, args)))
            },
        }
    }

    /// The full effect of consuming one input byte `b`, state by state:
    /// the escape machine advances, an editing byte mutates the line and
    /// echoes, CR submits, and an unrecognized control byte is handed out.
    /// A lone or garbled escape, and a CSI sequence with an unrecognized
    /// final byte, are abandoned silently: nothing is echoed and no event
    /// is surfaced.
    pub open spec fn dispatch_post(
        pre: Self,
        post: Self,
        b: u8,
        r: Result<Option<Input>, ShellError>,
    ) -> bool {
        match pre.parse_state() {
            EscState::SawEscape => {
                &&& r == Ok::<Option<Input>, ShellError>(None)
                &&& Self::editor_unchanged(pre, post)
                &&& post.echoed() == pre.echoed()
                &&& post.hist() == pre.hist()
                &&& post.parse_state() == (if b == control::CSI {
                    EscState::SawCsi
                } else {
                    EscState::Idle
                })
            },
            EscState::SawCsi => {
                &&& r == Ok::<Option<Input>, ShellError>(None)
                &&& post.parse_state() == EscState::Idle
                &&& if b == control::LEFT {
                    Self::left_post(pre, post) && post.hist() == pre.hist()
                } else if b == control::RIGHT {
                    Self::right_post(pre, post) && post.hist() == pre.hist()
                } else if b == control::UP {
                    Self::up_post(pre, post)
                } else if b == control::DOWN {
                    Self::down_post(pre, post)
                } else {
                    Self::editor_unchanged(pre, post) && post.echoed() == pre.echoed()
                        && post.hist() == pre.hist()
                }
            },
            EscState::Idle => {
                if b == control::ESC {
                    &&& r == Ok::<Option<Input>, ShellError>(None)
                    &&& Self::editor_unchanged(pre, post)
                    &&& post.echoed() == pre.echoed()
                    &&& post.hist() == pre.hist()
                    &&& post.parse_state() == EscState::SawEscape
                } else {
                    &&& post.parse_state() == EscState::Idle
                    &&& if b == control::TAB {
                        &&& post.hist() == pre.hist()
                        &&& if pre.completion_enabled() {
                            match r {
                                Ok(ev) => ev is None && Self::suggest_post(pre, post, Ok(())),
                                Err(e) => Self::suggest_post(pre, post, Err(e)),
                            }
                        } else {
                            r == Ok::<Option<Input>, ShellError>(None) && Self::bell_only(
                                pre,
                                post,
                            )
                        }
                    } else if b == control::DEL || b == control::BS {
                        &&& r == Ok::<Option<Input>, ShellError>(None)
                        &&& Self::delete_post(pre, post)
                        &&& post.hist() == pre.hist()
                    } else if b == control::CR {
                        match r {
                            Ok(ev) => ev matches Some(input) && Self::submit_post(
                                pre,
                                post,
                                Ok(input),
                            ),
                            Err(e) => Self::submit_post(pre, post, Err(e)),
                        }
                    } else if b < 0x20 || b == 0x7f {
                        &&& r == Ok::<Option<Input>, ShellError>(Some(Input::Control(b)))
                        &&& Self::editor_unchanged(pre, post)
                        &&& post.echoed() == pre.echoed()
                        &&& post.hist() == pre.hist()
                    } else {
                        &&& r == Ok::<Option<Input>, ShellError>(None)
                        &&& Self::insert_post(pre, post, b)
                        &&& post.hist() == pre.hist()
                    }
                }
            },
        }
    }

    /// Runs one received byte through the escape machine and the line
    /// editor.
    fn dispatch_byte(&mut self, byte: u8) -> (r: crate::PollResult)
        requires
            old(self).wf(),
        ensures
            final(self).wf(),
            Self::flags_unchanged(*old(self), *final(self)),
            final(self).compl() == old(self).compl(),
            final(self).pending() == old(self).pending(),
            Self::dispatch_post(*old(self), *final(self), byte, r),
    {
        match self.parse {
            EscState::SawEscape => {
                if byte == control::CSI {
                    self.parse = EscState::SawCsi;
                } else {
                    self.parse = EscState::Idle;
                }
                Ok(None)
            },
            EscState::SawCsi => {
                self.parse = EscState::Idle;
                if byte == control::LEFT {
                    self.dpad_left();
                } else if byte == control::RIGHT {
                    self.dpad_right();
                } else if byte == control::UP {
                    self.dpad_up();
                } else if byte == control::DOWN {
                    self.dpad_down();
                }
                Ok(None)
            },
            EscState::Idle => {
                if byte == control::ESC {
                    self.parse = EscState::SawEscape;
                    Ok(None)
                } else if byte == control::TAB {
                    if self.autocomplete_on {
                        self.suggest()?;
                        Ok(None)
                    } else {
                        self.ring();
                        Ok(None)
                    }
                } else if byte == control::DEL || byte == control::BS {
                    self.delete_at_cursor();
                    Ok(None)
                } else if byte == control::CR {
                    let input = self.submit_line()?;
                    Ok(Some(input))
                } else if byte < 0x20 || byte == 0x7f {
                    Ok(Some(Input::Control(byte)))
                } else {
                    self.write_at_cursor(byte);
                    Ok(None)
                }
            },
        }
    }

    /// One non-blocking poll: consumes at most one received byte and runs it
    /// through the escape machine and the line editor.  With no byte
    /// pending, returns `WouldBlock` and changes nothing; otherwise the
    /// byte's effect is exactly [`Self::dispatch_post`].
    pub fn poll(&mut self) -> (r: crate::PollResult)
        requires
            old(self).wf(),
        ensures
            final(self).wf(),
            Self::flags_unchanged(*old(self), *final(self)),
            final(self).compl() == old(self).compl(),
            old(self).pending().len() == 0 ==> r == Err::<Option<Input>, ShellError>(
                ShellError::WouldBlock,
            ) && Self::editor_unchanged(*old(self), *final(self)) && Self::io_unchanged(
                *old(self),
                *final(self),
            ) && Self::parts_unchanged(*old(self), *final(self)) && final(self).parse_state()
                == old(self).parse_state(),
            old(self).pending().len() > 0 ==> final(self).pending() == old(
                self,
            ).pending().drop_first() && Self::dispatch_post(
                *old(self),
                *final(self),
                old(self).pending()[0],
                r,
            ),
    {
        let byte = match self.serial.read() {
            Err(e) => {
                return Err(e);
            },
            Ok(b) => b,
        };
        let ghost mid = *self;
        let r = self.dispatch_byte(byte);
        proof {
            Self::lemma_dispatch_frame(mid, *old(self), *self, byte, r);
        }
        r
    }

    /// Nothing observable moved between the two states: line, cursor,
    /// parse state, both byte queues, both subsystems, both flags.
    pub open spec fn unmoved(pre: Self, post: Self) -> bool {
        &&& Self::editor_unchanged(pre, post)
        &&& Self::io_unchanged(pre, post)
        &&& Self::parts_unchanged(pre, post)
        &&& Self::flags_unchanged(pre, post)
        &&& post.parse_state() == pre.parse_state()
    }

    /// The engine error, if any, that consuming byte `b` in state `pre`
    /// raises: submitting an undecodable line or completing after an
    /// undecodable prefix is `BadInputError`, and submitting a line the
    /// history store refuses is `HistoryError`.  Every other byte is
    /// consumed without failure.
    pub open spec fn poll_failure(pre: Self, b: u8) -> Option<ShellError> {
        if pre.parse_state() == EscState::Idle && b != control::ESC {
            if b == control::TAB {
                if pre.completion_enabled() && !valid_utf8(pre.line().take(pre.cursor_pos())) {
                    Some(ShellError::BadInputError)
                } else {
                    None
                }
            } else if b == control::CR {
                if !valid_utf8(pre.line()) {
                    Some(ShellError::BadInputError)
                } else if !pre.hist().accepts(decode_utf8(pre.line())) {
                    Some(ShellError::HistoryError)
                } else {
                    None
                }
            } else {
                None
            }
        } else {
            None
        }
    }

    /// The dispatch relation fails exactly as [`Self::poll_failure`] says.
    proof fn lemma_dispatch_errors(
        pre: Self,
        post: Self,
        b: u8,
        r: Result<Option<Input>, ShellError>,
    )
        requires
            Self::dispatch_post(pre, post, b, r),
        ensures
            match Self::poll_failure(pre, b) {
                Some(e) => r == Err::<Option<Input>, ShellError>(e),
                None => r is Ok,
            },
    {
    }

    /// In the loop of `spin`: either the engine still stands where `spin`
    /// began, or the first pending byte has been consumed without an engine
    /// error and the queue has shrunk.
    spec fn spin_step(pre: Self, post: Self) -> bool {
        Self::unmoved(pre, post) || (pre.pending().len() > 0 && Self::poll_failure(
            pre,
            pre.pending()[0],
        ) is None && post.pending().len() < pre.pending().len())
    }

    /// Drives `poll` until no input is pending, dispatching command and
    /// control events to the host.  Exhausting the input ends the loop
    /// cleanly with `Ok` — with nothing pending at the call it returns at
    /// once, everything untouched.  A failure is never the would-block
    /// signal: an engine error on the first pending byte is returned as
    /// exactly that error with the byte's effect applied, and a failed
    /// dispatcher callback ends the loop with the dispatcher's own error,
    /// the engine's state kept as the callback left it.
    pub fn spin<E, ENV: crate::Environment<A, H, E, CMD_LEN>>(&mut self, env: &mut ENV) -> (r:
        crate::SpinResult<E>)
        requires
            old(self).wf(),
        ensures
            final(self).wf(),
            r is Ok ==> final(self).pending().len() == 0,
            old(self).pending().len() == 0 ==> r is Ok && Self::unmoved(*old(self), *final(self)),
            r matches Err(crate::SpinError::ShellError(e)) ==> e != ShellError::WouldBlock,
            old(self).pending().len() > 0 ==> (Self::poll_failure(
                *old(self),
                old(self).pending()[0],
            ) matches Some(e) ==> r == Err::<(), crate::SpinError<E>>(
                crate::SpinError::ShellError(e),
            ) && final(self).pending() == old(self).pending().drop_first()
                && Self::dispatch_post(
                *old(self),
                *final(self),
                old(self).pending()[0],
                Err(e),
            )),
    {
        loop
            invariant
                self.wf(),
                Self::spin_step(*old(self), *self),
            decreases self.pending().len(),
        {
            let ghost pre = *self;
            let polled = self.poll();
            proof {
                if pre.pending().len() > 0 {
                    Self::lemma_dispatch_errors(pre, *self, pre.pending()[0], polled);
                    if Self::unmoved(*old(self), pre) {
                        Self::lemma_dispatch_frame(
                            pre,
                            *old(self),
                            *self,
                            pre.pending()[0],
                            polled,
                        );
                        Self::lemma_dispatch_errors(
                            *old(self),
                            *self,
                            pre.pending()[0],
                            polled,
                        );
                    }
                }
            }
            match polled {
                Err(ShellError::WouldBlock) => {
                    return Ok(());
                },
                Err(err) => {
                    return Err(crate::SpinError::ShellError(err));
                },
                Ok(None) => {},
                Ok(Some(Input::Control(code))) => {
                    let res = env.control(self, code);
                    if let Err(e) = res {
                        return Err(e);
                    }
                },
                Ok(Some(Input::Command(pair))) => {
                    let res = env.command(self, pair.0.as_str(), pair.1.as_str());
                    if let Err(e) = res {
                        return Err(e);
                    }
                },
            }
        }
    }

    /// Typing a printable byte and then pressing backspace restores the
    /// line and the cursor exactly, at interior and boundary cursor
    /// positions alike: an insert followed by its matching delete is a
    /// content identity.
    pub proof fn lemma_insert_then_delete(pre: Self, mid: Self, post: Self, b: u8)
        requires
            0 <= pre.cursor_pos() <= pre.line().len(),
            pre.line().len() < CMD_LEN as int,
            Self::insert_post(pre, mid, b),
            Self::delete_post(mid, post),
        ensures
            post.line() == pre.line(),
            post.cursor_pos() == pre.cursor_pos(),
    {
        if pre.cursor_pos() < pre.line().len() {
            assert(post.line() =~= pre.line());
        } else {
            assert(post.line() =~= pre.line());
        }
    }

    /// Records a line in the history store, as a submission would.
    pub fn push_history(&mut self, line: &str) -> (r: crate::ShellResult)
        requires
            old(self).wf(),
        ensures
            final(self).wf(),
            r is Ok <==> old(self).hist().accepts(line@),
            r is Ok ==> final(self).hist().entries() == old(self).hist().pushed(line@) && final(self).hist().position() == 0,
            r is Err ==> r == Err::<(), ShellError>(ShellError::HistoryError) && final(self).hist().entries() == old(self).hist().entries() && final(self).hist().position()
                == old(self).hist().position(),
            final(self).line() == old(self).line(),
            final(self).cursor_pos() == old(self).cursor_pos(),
            final(self).parse_state() == old(self).parse_state(),
            final(self).echoed() == old(self).echoed(),
            final(self).pending() == old(self).pending(),
            final(self).compl() == old(self).compl(),
            final(self).completion_enabled() == old(self).completion_enabled(),
            final(self).history_enabled() == old(self).history_enabled(),
    {
        match self.history.push(line) {
            Ok(_) => Ok(()),
            Err(_) => Err(ShellError::HistoryError),
        }
    }
}


/// A submission law for an engine backed by the bounded store: a nonempty,
/// decodable line that fits the store is recorded exactly once, the editor
/// resets to an empty line at column zero, and submitting the same line
/// again would leave the store exactly as it is (dedup).
pub proof fn lemma_submit_dedup<
    A: Autocomplete,
    const CMD_LEN: usize,
    const C: usize,
    const N: usize,
>(
    pre: UShell<A, LRUHistory<C, N>, CMD_LEN>,
    post: UShell<A, LRUHistory<C, N>, CMD_LEN>,
    r: Result<Input, ShellError>,
)
    requires
        N > 0,
        valid_utf8(pre.line()),
        pre.line().len() > 0,
        pre.line().len() <= C as int,
        UShell::submit_post(pre, post, r),
    ensures
        post.line().len() == 0,
        post.cursor_pos() == 0,
        count_of(post.hist().entries(), decode_utf8(pre.line())) == 1,
        mru_push(post.hist().entries(), decode_utf8(pre.line()), N as int) == post.hist().entries(),
{
    let text = decode_utf8(pre.line());
    vstd::utf8::decode_utf8_encode_utf8(pre.line());
    assert(text.len() > 0) by {
        if text.len() == 0 {
            assert(encode_utf8(text).len() == 0);
        }
    }
    assert(pre.hist().accepts(text));
    lemma_mru_push_dedup(pre.hist().entries(), text, N as int);
}

} // verus!
