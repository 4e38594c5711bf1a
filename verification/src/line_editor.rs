use vstd::prelude::*;

verus! {

/// Bell: rung for a key the editor cannot act on.
pub const BEL: u8 = 0x07;

/// Backspace: moves the terminal's cursor one column left.
pub const BS: u8 = 0x08;

/// Line feed.
pub const LF: u8 = 0x0a;

/// Carriage return.
pub const CR: u8 = 0x0d;

/// Escape.
pub const ESC: u8 = 0x1b;

/// Delete: erases like backspace.
pub const DEL: u8 = 0x7f;

/// Space.
pub const SPACE: u8 = 0x20;

/// The most bytes a line holds.
pub const LINE_CAPACITY: usize = 512;

/// Whether `b` is a byte that the editor puts in a line: a graphic ASCII
/// character or a space.
pub open spec fn printable(b: u8) -> bool {
    0x20 <= b <= 0x7e
}

/// `n` backspaces.
pub open spec fn backspaces(n: nat) -> Seq<u8> {
    Seq::new(n, |i: int| BS)
}

/// One step of line editing: from the line `line` with the cursor at
/// `cursor`, the key `byte` gives the new line, the new cursor, the bytes to
/// echo to the terminal, and whether the line is finished.
pub open spec fn edit(line: Seq<u8>, cursor: nat, byte: u8) -> (Seq<u8>, nat, Seq<u8>, bool) {
    if byte == BS || byte == DEL {
        if cursor > 0 {
            let c = (cursor - 1) as nat;
            let new_line = line.remove(c as int);
            let out = seq![BS] + new_line.skip(c as int) + seq![SPACE]
                + backspaces((new_line.len() - c) as nat) + seq![BS];
            (new_line, c, out, false)
        } else {
            (line, cursor, seq![BEL], false)
        }
    } else if byte == CR || byte == LF {
        (line, cursor, seq![CR, LF], true)
    } else if printable(byte) && line.len() < LINE_CAPACITY {
        let new_line = line.insert(cursor as int, byte);
        let out = new_line.skip(cursor as int) + backspaces((new_line.len() - cursor - 1) as nat);
        (new_line, cursor + 1, out, false)
    } else {
        (line, cursor, seq![BEL], false)
    }
}

/// Whether `line` and `cursor` are a state the editor can be in: the line
/// holds at most `LINE_CAPACITY` printable bytes and the cursor lies within it.
pub open spec fn valid_state(line: Seq<u8>, cursor: nat) -> bool {
    &&& cursor <= line.len() <= LINE_CAPACITY
    &&& forall|i: int| 0 <= i < line.len() ==> printable(#[trigger] line[i])
}

/// Editing keeps the editor in a valid state, whatever the key.
pub proof fn lemma_edit_keeps_valid(line: Seq<u8>, cursor: nat, byte: u8)
    requires
        valid_state(line, cursor),
    ensures
        valid_state(edit(line, cursor, byte).0, edit(line, cursor, byte).1),
{
    if (byte == BS || byte == DEL) && cursor > 0 {
        let nl = line.remove(cursor - 1);
        assert forall|i: int| 0 <= i < nl.len() implies printable(#[trigger] nl[i]) by {
            if i < cursor - 1 {
                assert(nl[i] == line[i]);
            } else {
                assert(nl[i] == line[i + 1]);
            }
        }
    } else if !(byte == BS || byte == DEL) && !(byte == CR || byte == LF) && printable(byte) && line.len() < LINE_CAPACITY {
        let nl = line.insert(cursor as int, byte);
        assert forall|i: int| 0 <= i < nl.len() implies printable(#[trigger] nl[i]) by {
            if i < cursor {
                assert(nl[i] == line[i]);
            } else if i > cursor {
                assert(nl[i] == line[i - 1]);
            }
        }
    }
}

/// Typing a printable byte (0x20 through 0x7E) into a line of fewer than
/// 512 bytes puts it at the cursor and moves the cursor past it; the line
/// is not finished.
pub proof fn lemma_typing_inserts(line: Seq<u8>, cursor: nat, byte: u8)
    requires
        valid_state(line, cursor),
        0x20 <= byte <= 0x7e,
        line.len() < 512,
    ensures
        edit(line, cursor, byte).0 == line.take(cursor as int) + seq![byte] + line.skip(cursor as int),
        edit(line, cursor, byte).1 == cursor + 1,
        !edit(line, cursor, byte).3,
{
    assert(line.insert(cursor as int, byte) =~= line.take(cursor as int) + seq![byte] + line.skip(cursor as int));
}

/// Return (0x0D) or line feed (0x0A) finishes the line as it stands and
/// moves the terminal to a new line.
pub proof fn lemma_enter_finishes(line: Seq<u8>, cursor: nat, byte: u8)
    requires
        byte == 0x0d || byte == 0x0a,
    ensures
        edit(line, cursor, byte) == (line, cursor, seq![0x0du8, 0x0au8], true),
{
}

/// Backspace (0x08) or delete (0x7F) removes the byte before the cursor;
/// at the start of the line it rings the bell (0x07) and changes nothing.
pub proof fn lemma_erase_removes(line: Seq<u8>, cursor: nat, byte: u8)
    requires
        valid_state(line, cursor),
        byte == 0x08 || byte == 0x7f,
    ensures
        cursor > 0 ==> edit(line, cursor, byte).0 == line.take(cursor - 1) + line.skip(cursor as int),
        cursor > 0 ==> edit(line, cursor, byte).1 == cursor - 1,
        cursor == 0 ==> edit(line, cursor, byte) == (line, cursor, seq![0x07u8], false),
        !edit(line, cursor, byte).3,
{
    if cursor > 0 {
        assert(line.remove(cursor - 1) =~= line.take(cursor - 1) + line.skip(cursor as int));
    }
}

/// Any other key, and a printable one when the line already holds 512
/// bytes, rings the bell (0x07) and changes nothing.
pub proof fn lemma_other_keys_ring_bell(line: Seq<u8>, cursor: nat, byte: u8)
    requires
        byte != 0x08 && byte != 0x7f && byte != 0x0d && byte != 0x0a,
        !(0x20 <= byte <= 0x7e) || line.len() >= 512,
    ensures
        edit(line, cursor, byte) == (line, cursor, seq![0x07u8], false),
{
}

/// Erasing right after typing a byte into a line that has room gives back
/// the line and cursor from before.
pub proof fn lemma_backspace_undoes_typing(line: Seq<u8>, cursor: nat, byte: u8)
    requires
        valid_state(line, cursor),
        printable(byte),
        line.len() < LINE_CAPACITY,
    ensures
        ({
            let typed = edit(line, cursor, byte);
            let erased = edit(typed.0, typed.1, BS);
            erased.0 == line && erased.1 == cursor
        }),
{
    let typed = edit(line, cursor, byte);
    assert(typed.0.remove(cursor as int) =~= line);
}

/// What a terminal shows after it receives byte `b`, from the cells `cells`
/// with its cursor at column `col`: backspace moves the cursor one column
/// left, a printable byte is written at the cursor, which moves right, and
/// any other byte changes nothing on the line.
pub open spec fn term_put(cells: Seq<u8>, col: nat, b: u8) -> (Seq<u8>, nat) {
    if b == BS {
        (cells, if col > 0 { (col - 1) as nat } else { 0 })
    } else if printable(b) {
        (if col < cells.len() { cells.update(col as int, b) } else { cells.push(b) }, col + 1)
    } else {
        (cells, col)
    }
}

/// What a terminal shows after it receives the bytes `out`, one after the other.
pub open spec fn term_show(cells: Seq<u8>, col: nat, out: Seq<u8>) -> (Seq<u8>, nat)
    decreases out.len(),
{
    if out.len() == 0 {
        (cells, col)
    } else {
        let prev = term_show(cells, col, out.drop_last());
        term_put(prev.0, prev.1, out.last())
    }
}

/// Whether the terminal cells `cells` show the line `line`, followed by
/// blanks only.
pub open spec fn shows(cells: Seq<u8>, line: Seq<u8>) -> bool {
    &&& line.len() <= cells.len()
    &&& cells.take(line.len() as int) == line
    &&& forall|i: int| line.len() <= i < cells.len() ==> #[trigger] cells[i] == SPACE
}

/// The cells `cells` with `run` written over them from column `col` on.
pub open spec fn overwrite(cells: Seq<u8>, col: nat, run: Seq<u8>) -> Seq<u8> {
    let len = if col + run.len() > cells.len() { col + run.len() } else { cells.len() };
    Seq::new(len as nat, |i: int| if col <= i < col + run.len() { run[i - col] } else { cells[i] })
}

/// Sending `a` and then `b` is sending `a + b`.
pub proof fn lemma_term_show_concat(cells: Seq<u8>, col: nat, a: Seq<u8>, b: Seq<u8>)
    ensures
        term_show(cells, col, a + b) == term_show(term_show(cells, col, a).0, term_show(cells, col, a).1, b),
    decreases b.len(),
{
    if b.len() == 0 {
        assert(a + b =~= a);
    } else {
        lemma_term_show_concat(cells, col, a, b.drop_last());
        assert((a + b).drop_last() =~= a + b.drop_last());
    }
}

/// Printable bytes are written over the cells from the cursor on.
pub proof fn lemma_term_show_run(cells: Seq<u8>, col: nat, run: Seq<u8>)
    requires
        col <= cells.len(),
        forall|i: int| 0 <= i < run.len() ==> printable(#[trigger] run[i]),
    ensures
        term_show(cells, col, run) == (overwrite(cells, col, run), col + run.len()),
    decreases run.len(),
{
    if run.len() == 0 {
        assert(overwrite(cells, col, run) =~= cells);
    } else {
        let prev = run.drop_last();
        lemma_term_show_run(cells, col, prev);
        let w = overwrite(cells, col, prev);
        let b = run.last();
        assert(printable(run[run.len() - 1]));
        assert(b != BS);
        if col + prev.len() < w.len() {
            assert(w.update((col + prev.len()) as int, b) =~= overwrite(cells, col, run));
        } else {
            assert(w.push(b) =~= overwrite(cells, col, run));
        }
    }
}

/// Backspaces move the cursor left.
pub proof fn lemma_term_show_backspaces(cells: Seq<u8>, col: nat, n: nat)
    requires
        n <= col,
    ensures
        term_show(cells, col, backspaces(n)) == (cells, (col - n) as nat),
    decreases n,
{
    if n > 0 {
        lemma_term_show_backspaces(cells, col, (n - 1) as nat);
        assert(backspaces(n).drop_last() =~= backspaces((n - 1) as nat));
    }
}

/// The echo of each key keeps the terminal in step with the editor: a
/// terminal that shows the line, with its cursor at the editor's cursor,
/// shows the new line, with its cursor at the new cursor, once it has
/// received the echo of a key that does not finish the line.
pub proof fn lemma_echo_keeps_terminal_in_step(line: Seq<u8>, cursor: nat, byte: u8, cells: Seq<u8>)
    requires
        valid_state(line, cursor),
        shows(cells, line),
    ensures
        !edit(line, cursor, byte).3 ==> {
            let shown = term_show(cells, cursor, edit(line, cursor, byte).2);
            &&& shows(shown.0, edit(line, cursor, byte).0)
            &&& shown.1 == edit(line, cursor, byte).1
        },
{
    let (nl, nc, out, done) = edit(line, cursor, byte);
    if done {
        return;
    }
    lemma_edit_keeps_valid(line, cursor, byte);
    if (byte == BS || byte == DEL) && cursor > 0 {
        let c = (cursor - 1) as nat;
        let run = nl.skip(c as int) + seq![SPACE];
        let m = (nl.len() - c) as nat;
        assert(out =~= seq![BS] + run + backspaces(m + 1));
        assert(backspaces(m + 1) =~= backspaces(m) + seq![BS]);
        assert forall|i: int| 0 <= i < run.len() implies printable(#[trigger] run[i]) by {
            if i < run.len() - 1 {
                assert(run[i] == nl[c + i]);
            }
        }
        lemma_term_show_concat(cells, cursor, seq![BS] + run, backspaces(m + 1));
        lemma_term_show_concat(cells, cursor, seq![BS], run);
        assert(seq![BS] =~= backspaces(1));
        lemma_term_show_backspaces(cells, cursor, 1);
        lemma_term_show_run(cells, c, run);
        let w = overwrite(cells, c, run);
        lemma_term_show_backspaces(w, c + run.len(), m + 1);
        assert(w.take(nl.len() as int) =~= nl) by {
            assert forall|i: int| 0 <= i < nl.len() implies w[i] == nl[i] by {
                if i < c {
                    assert(cells.take(line.len() as int)[i] == line[i]);
                    assert(nl[i] == line[i]);
                } else {
                    assert(run[i - c] == nl.skip(c as int)[i - c]);
                }
            }
        }
        assert forall|i: int| nl.len() <= i < w.len() implies #[trigger] w[i] == SPACE by {
            if i >= line.len() {
                assert(w[i] == cells[i]);
            }
        }
        assert(shows(w, nl));
        assert(term_show(cells, cursor, out) == (w, c));
    } else if !(byte == BS || byte == DEL) && !(byte == CR || byte == LF) && printable(byte) && line.len() < LINE_CAPACITY {
        let run = nl.skip(cursor as int);
        let m = (nl.len() - cursor - 1) as nat;
        assert forall|i: int| 0 <= i < run.len() implies printable(#[trigger] run[i]) by {
            assert(run[i] == nl[cursor + i]);
        }
        lemma_term_show_concat(cells, cursor, run, backspaces(m));
        lemma_term_show_run(cells, cursor, run);
        let w = overwrite(cells, cursor, run);
        lemma_term_show_backspaces(w, cursor + run.len(), m);
        assert(w.take(nl.len() as int) =~= nl) by {
            assert forall|i: int| 0 <= i < nl.len() implies w[i] == nl[i] by {
                if i < cursor {
                    assert(cells.take(line.len() as int)[i] == line[i]);
                    assert(nl[i] == line[i]);
                } else {
                    assert(run[i - cursor] == nl[i]);
                }
            }
        }
        assert forall|i: int| nl.len() <= i < w.len() implies #[trigger] w[i] == SPACE by {
            assert(w[i] == cells[i]);
        }
        assert(shows(w, nl));
        assert(term_show(cells, cursor, out) == (w, cursor + 1));
    } else {
        assert(out == seq![BEL]);
        assert(seq![BEL].drop_last() =~= Seq::<u8>::empty());
        assert(term_show(cells, cursor, Seq::<u8>::empty()) == (cells, cursor));
        assert(term_show(cells, cursor, out) == (cells, cursor));
    }
}

/// A line being typed at a terminal, with the position of the cursor.
pub struct LineEditor {
    line: Vec<u8>,
    cursor: usize,
}

impl LineEditor {
    #[verifier::type_invariant]
    spec fn inv(&self) -> bool {
        valid_state(self.line@, self.cursor as nat)
    }

    /// The bytes of the line.
    pub closed spec fn spec_line(&self) -> Seq<u8> {
        self.line@
    }

    /// The position of the cursor in the line.
    pub closed spec fn spec_cursor(&self) -> nat {
        self.cursor as nat
    }

    /// Returns an editor with an empty line.
    pub fn new() -> (e: LineEditor)
        ensures
            e.spec_line() == Seq::<u8>::empty(),
            e.spec_cursor() == 0,
    {
        LineEditor { line: Vec::new(), cursor: 0 }
    }

    /// Returns the bytes of the line.
    pub fn line(&self) -> (line: &Vec<u8>)
        ensures
            line@ == self.spec_line(),
            valid_state(self.spec_line(), self.spec_cursor()),
    {
        proof {
            use_type_invariant(self);
        }
        &self.line
    }

    /// Returns the position of the cursor in the line.
    pub fn cursor(&self) -> (cursor: usize)
        ensures
            cursor == self.spec_cursor(),
    {
        self.cursor
    }

    /// Handles the key `byte`: edits the line, and returns the bytes to echo
    /// to the terminal and whether the line is finished.
    ///
    /// Backspace and delete erase the byte before the cursor, return ends the
    /// line, and a printable byte is inserted at the cursor while the line
    /// has room; any other key rings the bell.
    pub fn feed(&mut self, byte: u8) -> (r: (Vec<u8>, bool))
        ensures
            edit(old(self).spec_line(), old(self).spec_cursor(), byte) == (
                final(self).spec_line(),
                final(self).spec_cursor(),
                r.0@,
                r.1,
            ),
    {
        proof {
            use_type_invariant(&*self);
        }
        let mut out: Vec<u8> = Vec::new();
        if byte == BS || byte == DEL {
            if self.cursor > 0 {
                let c = self.cursor - 1;
                let ghost old_line = self.line@;
                let mut line: Vec<u8> = Vec::new();
                self.cursor = 0;
                std::mem::swap(&mut line, &mut self.line);
                line.remove(c);
                assert(line@ =~= old_line.remove(c as int));
                proof {
                    lemma_edit_keeps_valid(old_line, (c + 1) as nat, byte);
                }
                out.push(BS);
                let n = line.len();
                let mut i = c;
                while i < n
                    invariant
                        c <= i <= n,
                        n == line@.len(),
                        out@ == seq![BS] + line@.subrange(c as int, i as int),
                    decreases n - i,
                {
                    out.push(line[i]);
                    i = i + 1;
                    assert(line@.subrange(c as int, i as int) =~= line@.subrange(c as int, i - 1).push(line@[i - 1]));
                }
                out.push(SPACE);
                let mut j = c;
                while j < n
                    invariant
                        c <= j <= n,
                        out@ == seq![BS] + line@.skip(c as int) + seq![SPACE] + backspaces((j - c) as nat),
                    decreases n - j,
                {
                    out.push(BS);
                    j = j + 1;
                    assert(backspaces((j - c) as nat) =~= backspaces((j - 1 - c) as nat).push(BS));
                }
                out.push(BS);
                proof {
                    assert(line@.subrange(c as int, n as int) =~= line@.skip(c as int));
                }
                self.line = line;
                self.cursor = c;
                return (out, false);
            }
            out.push(BEL);
            return (out, false);
        }
        if byte == CR || byte == LF {
            out.push(CR);
            out.push(LF);
            return (out, true);
        }
        if 0x20 <= byte && byte <= 0x7e && self.line.len() < LINE_CAPACITY {
            let cursor = self.cursor;
            let ghost old_line = self.line@;
            let mut line: Vec<u8> = Vec::new();
            self.cursor = 0;
            std::mem::swap(&mut line, &mut self.line);
            line.insert(cursor, byte);
            assert(line@ =~= old_line.insert(cursor as int, byte));
            proof {
                lemma_edit_keeps_valid(old_line, cursor as nat, byte);
            }
            let n = line.len();
            let mut i = cursor;
            while i < n
                invariant
                    cursor <= i <= n,
                    n == line@.len(),
                    out@ == line@.subrange(cursor as int, i as int),
                decreases n - i,
            {
                out.push(line[i]);
                i = i + 1;
                assert(line@.subrange(cursor as int, i as int) =~= line@.subrange(cursor as int, i - 1).push(line@[i - 1]));
            }
            let next = cursor + 1;
            let mut j = next;
            proof {
                assert(line@.subrange(cursor as int, n as int) =~= line@.skip(cursor as int));
                assert(out@ =~= line@.skip(cursor as int) + backspaces(0));
            }
            while j < n
                invariant
                    next <= j <= n,
                    out@ == line@.skip(cursor as int) + backspaces((j - next) as nat),
                decreases n - j,
            {
                out.push(BS);
                j = j + 1;
                assert(backspaces((j - next) as nat) =~= backspaces((j - 1 - next) as nat).push(BS));
            }
            self.line = line;
            self.cursor = next;
            return (out, false);
        }
        out.push(BEL);
        (out, false)
    }
}

} // verus!
