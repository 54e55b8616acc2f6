//! The line editor of the console: keys from bytes, a line with a cursor, and
//! a history.
use vstd::prelude::*;
use vstd::utf8::*;
use crate::bytes;
use crate::number;
use crate::outside;
use crate::text;

verus! {

// ---------------------------------------------------------------------
// Keys
// ---------------------------------------------------------------------

/// What a key does.
#[derive(Debug, Clone)]
pub enum Key {
    Enter,
    Backspace,
    Delete,
    Up,
    Down,
    Left,
    Right,
    Home,
    End,
    ClearLine,
    ClearScreen,
    /// Characters to insert.
    Text(String),
    /// Nothing known.
    Nothing,
}

/// What a key does, as a mathematical value.
pub enum KeyView {
    Enter,
    Backspace,
    Delete,
    Up,
    Down,
    Left,
    Right,
    Home,
    End,
    ClearLine,
    ClearScreen,
    Text(Seq<char>),
    Nothing,
}

impl View for Key {
    type V = KeyView;

    open spec fn view(&self) -> KeyView {
        match self {
            Key::Enter => KeyView::Enter,
            Key::Backspace => KeyView::Backspace,
            Key::Delete => KeyView::Delete,
            Key::Up => KeyView::Up,
            Key::Down => KeyView::Down,
            Key::Left => KeyView::Left,
            Key::Right => KeyView::Right,
            Key::Home => KeyView::Home,
            Key::End => KeyView::End,
            Key::ClearLine => KeyView::ClearLine,
            Key::ClearScreen => KeyView::ClearScreen,
            Key::Text(s) => KeyView::Text(s@),
            Key::Nothing => KeyView::Nothing,
        }
    }
}

/// How many bytes a character takes whose first byte is given.
pub open spec fn lead_width(b: u8) -> int {
    if b < 0xE0 {
        2
    } else if b < 0xF0 {
        3
    } else {
        4
    }
}

/// The key that some bytes hold at a place, and how many of them it takes.
pub open spec fn key_at(input: Seq<u8>, i: int) -> (KeyView, int) {
    let b = input[i];
    if b == 0x0d || b == 0x0a {
        (KeyView::Enter, 1)
    } else if b == 0x7f || b == 0x08 {
        (KeyView::Backspace, 1)
    } else if b == 0x1b && i + 2 < input.len() && input[i + 1] == 0x5b {
        let c = input[i + 2];
        if c == 0x41 {
            (KeyView::Up, 3)
        } else if c == 0x42 {
            (KeyView::Down, 3)
        } else if c == 0x43 {
            (KeyView::Right, 3)
        } else if c == 0x44 {
            (KeyView::Left, 3)
        } else if c == 0x48 {
            (KeyView::Home, 3)
        } else if c == 0x46 {
            (KeyView::End, 3)
        } else if c == 0x33 && i + 3 < input.len() && input[i + 3] == 0x7e {
            (KeyView::Delete, 4)
        } else {
            (KeyView::Nothing, 3)
        }
    } else if b == 0x01 {
        (KeyView::Home, 1)
    } else if b == 0x05 {
        (KeyView::End, 1)
    } else if b == 0x15 {
        (KeyView::ClearLine, 1)
    } else if b == 0x0c {
        (KeyView::ClearScreen, 1)
    } else if 0x20 <= b < 0x7f {
        (KeyView::Text(seq![b as char]), 1)
    } else if b >= 0x80 {
        let n = lead_width(b);
        if i + n <= input.len() && valid_utf8(input.subrange(i, i + n)) {
            (KeyView::Text(decode_utf8(input.subrange(i, i + n))), n)
        } else {
            (KeyView::Nothing, n)
        }
    } else {
        (KeyView::Nothing, 1)
    }
}

/// The bytes from one place to another.
fn slice_of(input: &Vec<u8>, from: usize, to: usize) -> (r: Vec<u8>)
    requires
        from <= to <= input@.len(),
    ensures
        r@ == input@.subrange(from as int, to as int),
{
    let mut r: Vec<u8> = Vec::new();
    let mut i: usize = from;
    assert(r@ =~= input@.subrange(from as int, from as int));
    while i < to
        invariant
            from <= i <= to <= input@.len(),
            r@ == input@.subrange(from as int, i as int),
        decreases to - i,
    {
        r.push(input[i]);
        assert(r@ =~= input@.subrange(from as int, i + 1));
        i += 1;
    }
    r
}

/// The key that some bytes hold at a place, and how many of them it takes.
pub fn decode_key(input: &Vec<u8>, i: usize) -> (r: (Key, usize))
    requires
        i < input@.len(),
    ensures
        (r.0@, r.1 as int) == key_at(input@, i as int),
        1 <= r.1 <= 4,
{
    let b: u8 = input[i];
    let left: usize = input.len() - i;
    if b == 0x0d || b == 0x0a {
        (Key::Enter, 1)
    } else if b == 0x7f || b == 0x08 {
        (Key::Backspace, 1)
    } else if b == 0x1b && left > 2 && input[i + 1] == 0x5b {
        let c: u8 = input[i + 2];
        if c == 0x41 {
            (Key::Up, 3)
        } else if c == 0x42 {
            (Key::Down, 3)
        } else if c == 0x43 {
            (Key::Right, 3)
        } else if c == 0x44 {
            (Key::Left, 3)
        } else if c == 0x48 {
            (Key::Home, 3)
        } else if c == 0x46 {
            (Key::End, 3)
        } else if c == 0x33 && left > 3 && input[i + 3] == 0x7e {
            (Key::Delete, 4)
        } else {
            (Key::Nothing, 3)
        }
    } else if b == 0x01 {
        (Key::Home, 1)
    } else if b == 0x05 {
        (Key::End, 1)
    } else if b == 0x15 {
        (Key::ClearLine, 1)
    } else if b == 0x0c {
        (Key::ClearScreen, 1)
    } else if 0x20 <= b && b < 0x7f {
        let mut s = String::new();
        s.push(b as char);
        assert(s@ =~= seq![b as char]);
        (Key::Text(s), 1)
    } else if b >= 0x80 {
        let n: usize = if b < 0xE0 {
            2
        } else if b < 0xF0 {
            3
        } else {
            4
        };
        if n <= left {
            match outside::utf8_string(slice_of(input, i, i + n)) {
                Some(s) => (Key::Text(s), n),
                None => (Key::Nothing, n),
            }
        } else {
            (Key::Nothing, n)
        }
    } else {
        (Key::Nothing, 1)
    }
}

// ---------------------------------------------------------------------
// The line
// ---------------------------------------------------------------------

/// A line being edited, and the lines entered before.
#[derive(Debug, Clone)]
pub struct LineEditor {
    pub line: Vec<char>,
    /// How many characters stand before the cursor.
    pub cursor: usize,
    pub history: Vec<String>,
    /// The line of the history that is shown; behind the last one, none.
    pub hist_idx: usize,
}

/// A line being edited, as a mathematical value.
pub struct EditorView {
    pub line: Seq<char>,
    pub cursor: int,
    pub history: Seq<Seq<char>>,
    pub hist_idx: int,
}

impl View for LineEditor {
    type V = EditorView;

    open spec fn view(&self) -> EditorView {
        EditorView {
            line: self.line@,
            cursor: self.cursor as int,
            history: text::views(self.history@),
            hist_idx: self.hist_idx as int,
        }
    }
}

impl EditorView {
    /// Whether cursor and history index lie within their bounds.
    pub open spec fn wf(self) -> bool {
        &&& 0 <= self.cursor <= self.line.len()
        &&& 0 <= self.hist_idx <= self.history.len()
    }

    /// The line with a text inserted before the cursor.
    pub open spec fn insert(self, s: Seq<char>) -> EditorView {
        EditorView {
            line: self.line.take(self.cursor) + s + self.line.skip(self.cursor),
            cursor: self.cursor + s.len(),
            ..self
        }
    }

    /// The editor showing a text, the cursor at its end.
    pub open spec fn show(self, s: Seq<char>, hist_idx: int) -> EditorView {
        EditorView { line: s, cursor: s.len() as int, hist_idx, ..self }
    }

    /// Whether a key has an effect that must be shown.
    pub open spec fn reacts(self, key: KeyView) -> bool {
        match key {
            KeyView::Backspace => self.cursor > 0,
            KeyView::Delete => self.cursor < self.line.len(),
            KeyView::Up => self.hist_idx > 0,
            KeyView::Down => self.hist_idx < self.history.len(),
            KeyView::Left => self.cursor > 0,
            KeyView::Right => self.cursor < self.line.len(),
            KeyView::Home => true,
            KeyView::End => true,
            KeyView::ClearLine => true,
            KeyView::ClearScreen => true,
            KeyView::Text(_) => true,
            KeyView::Enter => false,
            KeyView::Nothing => false,
        }
    }

    /// The editor after a key.
    pub open spec fn press(self, key: KeyView) -> EditorView {
        if !self.reacts(key) {
            self
        } else {
            match key {
                KeyView::Backspace => EditorView {
                    line: self.line.remove(self.cursor - 1),
                    cursor: self.cursor - 1,
                    ..self
                },
                KeyView::Delete => EditorView { line: self.line.remove(self.cursor), ..self },
                KeyView::Up => self.show(self.history[self.hist_idx - 1], self.hist_idx - 1),
                KeyView::Down => self.show(
                    if self.hist_idx + 1 < self.history.len() {
                        self.history[self.hist_idx + 1]
                    } else {
                        Seq::empty()
                    },
                    self.hist_idx + 1,
                ),
                KeyView::Left => EditorView { cursor: self.cursor - 1, ..self },
                KeyView::Right => EditorView { cursor: self.cursor + 1, ..self },
                KeyView::Home => EditorView { cursor: 0, ..self },
                KeyView::End => EditorView { cursor: self.line.len() as int, ..self },
                KeyView::ClearLine => EditorView { line: Seq::empty(), cursor: 0, ..self },
                KeyView::Text(s) => self.insert(s),
                _ => self,
            }
        }
    }

    /// The command that the line holds, if it holds one.
    pub open spec fn command(self) -> Option<Seq<char>> {
        if text::trim(self.line).len() > 0 {
            Some(text::trim(self.line))
        } else {
            None
        }
    }

    /// The editor once its line is entered: the history gains the trimmed line,
    /// unless it is empty or the same as the last one.
    pub open spec fn entered(self) -> EditorView {
        let cmd = text::trim(self.line);
        let history = if cmd.len() == 0 || (self.history.len() > 0 && self.history.last() == cmd) {
            self.history
        } else {
            self.history.push(cmd)
        };
        EditorView { line: Seq::empty(), cursor: 0, history, hist_idx: history.len() as int }
    }

    /// What is written to show the line: back to the start, the line emptied,
    /// a prompt, the text, and the cursor moved to its place.
    pub open spec fn prompt(self) -> Seq<char> {
        let back = (self.line.len() - self.cursor) as nat;
        let shown = "\r\u{1b}[K> "@ + self.line;
        if back > 0 {
            shown + "\u{1b}["@ + number::dec(back) + "D"@
        } else {
            shown
        }
    }
}

/// What some bytes did to an editor.
#[derive(Debug, Clone, Copy)]
pub struct Fed {
    /// Whether the line must be shown anew.
    pub redraw: bool,
    /// Whether the line was entered; what follows in the bytes is dropped.
    pub enter: bool,
    /// How often the screen is to be cleared.
    pub clears: usize,
}

/// An editor and what some bytes did to it, as a mathematical value.
pub struct FedView {
    pub editor: EditorView,
    pub redraw: bool,
    pub enter: bool,
    pub clears: int,
}

/// What the bytes from a place on do to an editor.
pub open spec fn fed(f: FedView, input: Seq<u8>, i: int) -> FedView
    decreases
            if i < input.len() {
                input.len() - i
            } else {
                0
            },
{
    if i >= input.len() {
        f
    } else {
        let key = key_at(input, i);
        if key.0 is Enter {
            FedView { enter: true, ..f }
        } else {
            fed(
                FedView {
                    editor: f.editor.press(key.0),
                    redraw: f.redraw || f.editor.reacts(key.0),
                    enter: f.enter,
                    clears: f.clears + (if key.0 is ClearScreen {
                        1int
                    } else {
                        0
                    }),
                },
                input,
                i + key.1,
            )
        }
    }
}

impl LineEditor {
    /// An editor with an empty line and no history.
    pub fn new() -> (r: LineEditor)
        ensures
            r@.wf(),
            r@ == (EditorView {
                line: Seq::empty(),
                cursor: 0,
                history: Seq::empty(),
                hist_idx: 0,
            }),
    {
        let r = LineEditor { line: Vec::new(), cursor: 0, history: Vec::new(), hist_idx: 0 };
        assert(r@.history =~= Seq::<Seq<char>>::empty());
        r
    }

    /// Inserts a text before the cursor.
    fn insert_text(&mut self, s: &str)
        requires
            old(self)@.wf(),
        ensures
            final(self)@.wf(),
            final(self)@ == old(self)@.insert(s@),
    {
        let v = text::to_chars(s);
        let ghost first = self@;
        let mut i: usize = 0;
        assert(first.line.take(first.cursor) + s@.take(0) + first.line.skip(first.cursor)
            =~= first.line);
        while i < v.len()
            invariant
                0 <= i <= v@.len(),
                v@ == s@,
                first.wf(),
                self@.wf(),
                self@ == first.insert(s@.take(i as int)),
            decreases v@.len() - i,
        {
            self.line.insert(self.cursor, v[i]);
            assert(self.cursor < self.line.len());
            self.cursor = self.cursor + 1;
            assert(self@.line =~= first.insert(s@.take(i + 1)).line);
            i += 1;
        }
        assert(s@.take(s@.len() as int) =~= s@);
    }

    /// Presses a key; tells whether the line must be shown anew.
    pub fn press(&mut self, key: &Key) -> (r: bool)
        requires
            old(self)@.wf(),
        ensures
            final(self)@.wf(),
            final(self)@ == old(self)@.press(key@),
            r == old(self)@.reacts(key@),
    {
        match key {
            Key::Backspace => {
                if self.cursor > 0 {
                    self.line.remove(self.cursor - 1);
                    self.cursor = self.cursor - 1;
                    true
                } else {
                    false
                }
            },
            Key::Delete => {
                if self.cursor < self.line.len() {
                    self.line.remove(self.cursor);
                    true
                } else {
                    false
                }
            },
            Key::Up => {
                if self.hist_idx > 0 {
                    self.hist_idx = self.hist_idx - 1;
                    self.line = text::to_chars(self.history[self.hist_idx].as_str());
                    self.cursor = self.line.len();
                    true
                } else {
                    false
                }
            },
            Key::Down => {
                if self.hist_idx < self.history.len() {
                    self.hist_idx = self.hist_idx + 1;
                    if self.hist_idx < self.history.len() {
                        self.line = text::to_chars(self.history[self.hist_idx].as_str());
                    } else {
                        self.line = Vec::new();
                    }
                    self.cursor = self.line.len();
                    true
                } else {
                    false
                }
            },
            Key::Left => {
                if self.cursor > 0 {
                    self.cursor = self.cursor - 1;
                    true
                } else {
                    false
                }
            },
            Key::Right => {
                if self.cursor < self.line.len() {
                    self.cursor = self.cursor + 1;
                    true
                } else {
                    false
                }
            },
            Key::Home => {
                self.cursor = 0;
                true
            },
            Key::End => {
                self.cursor = self.line.len();
                true
            },
            Key::ClearLine => {
                self.line = Vec::new();
                self.cursor = 0;
                true
            },
            Key::ClearScreen => true,
            Key::Text(s) => {
                self.insert_text(s.as_str());
                true
            },
            Key::Enter => false,
            Key::Nothing => false,
        }
    }

    /// Takes bytes from the terminal, up to the end of the line if they hold
    /// one.
    pub fn feed(&mut self, input: &Vec<u8>) -> (r: Fed)
        requires
            old(self)@.wf(),
        ensures
            final(self)@.wf(),
            (FedView {
                editor: final(self)@,
                redraw: r.redraw,
                enter: r.enter,
                clears: r.clears as int,
            }) == fed(
                (FedView { editor: old(self)@, redraw: false, enter: false, clears: 0 }),
                input@,
                0,
            ),
    {
        let ghost goal = fed(
            FedView { editor: self@, redraw: false, enter: false, clears: 0 },
            input@,
            0,
        );
        let mut redraw = false;
        let mut clears: usize = 0;
        let mut i: usize = 0;
        while i < input.len()
            invariant
                self@.wf(),
                clears <= i,
                goal == fed(
                    FedView { editor: old(self)@, redraw: false, enter: false, clears: 0 },
                    input@,
                    0,
                ),
                goal == fed(
                    FedView { editor: self@, redraw, enter: false, clears: clears as int },
                    input@,
                    i as int,
                ),
            decreases input@.len() - i,
        {
            let (key, width) = decode_key(input, i);
            if let Key::Enter = key {
                return Fed { redraw, enter: true, clears };
            }
            if let Key::ClearScreen = key {
                clears = clears + 1;
            }
            if self.press(&key) {
                redraw = true;
            }
            if width >= input.len() - i {
                assert(goal == fed(
                    FedView { editor: self@, redraw, enter: false, clears: clears as int },
                    input@,
                    i + width,
                ));
                return Fed { redraw, enter: false, clears };
            }
            i = i + width;
        }
        Fed { redraw, enter: false, clears }
    }

    /// Enters the line: gives it, trimmed, unless nothing is left of it.
    pub fn submit(&mut self) -> (r: Option<String>)
        requires
            old(self)@.wf(),
        ensures
            final(self)@.wf(),
            final(self)@ == old(self)@.entered(),
            text::opt_view(r) == old(self)@.command(),
    {
        let line = text::from_chars(&self.line);
        let cmd = text::trimmed(line.as_str());
        let empty = cmd.as_str().is_empty();
        let ghost before = self.history@;
        if !empty {
            let n: usize = self.history.len();
            if n == 0 || !text::same(self.history[n - 1].as_str(), cmd.as_str()) {
                self.history.push(cmd.clone());
                assert(text::views(self.history@) =~= text::views(before).push(cmd@));
            }
        }
        self.line = Vec::new();
        self.cursor = 0;
        self.hist_idx = self.history.len();
        if empty {
            None
        } else {
            Some(cmd)
        }
    }

    /// What is written to show the line.
    pub fn prompt(&self) -> (r: String)
        requires
            self@.wf(),
        ensures
            r@ == self@.prompt(),
    {
        let mut s = "\r\u{1b}[K> ".to_owned();
        s.append(text::from_chars(&self.line).as_str());
        let back: usize = self.line.len() - self.cursor;
        if back > 0 {
            s.append("\u{1b}[");
            s.append(number::decimal(back as u64).as_str());
            s.append("D");
        }
        s
    }
}

// ---------------------------------------------------------------------
// Laws
// ---------------------------------------------------------------------

/// Typing a character and taking it back restores line and cursor.
pub proof fn law_backspace_undoes_typing(e: EditorView, c: char)
    requires
        e.wf(),
    ensures
        e.press(KeyView::Text(seq![c])).press(KeyView::Backspace) == e,
{
    let t = e.insert(seq![c]);
    assert(t.line.remove(t.cursor - 1) =~= e.line);
}

/// Moving left and then right, where there is room to the left, changes
/// nothing.
pub proof fn law_right_undoes_left(e: EditorView)
    requires
        e.wf(),
        e.cursor > 0,
    ensures
        e.press(KeyView::Left).press(KeyView::Right) == e,
{
}

/// The key up, right after a line was entered, shows the last line of the
/// history; where the line held more than white space, that is the line
/// itself, trimmed.
pub proof fn law_up_recalls_entry(e: EditorView)
    requires
        e.wf(),
        text::trim(e.line).len() > 0,
    ensures
        e.entered().press(KeyView::Up).line == text::trim(e.line),
{
}

/// No key moves cursor or history index out of bounds.
pub proof fn law_press_keeps_bounds(e: EditorView, key: KeyView)
    requires
        e.wf(),
    ensures
        e.press(key).wf(),
        e.press(key).history == e.history,
{
}

/// Whether a character is typed as itself: no control character.
pub open spec fn is_typed(c: char) -> bool {
    c as u32 >= 0x20 && c as u32 != 0x7f
}

proof fn lemma_key_of_char(t: Seq<char>, input: Seq<u8>, i: int)
    requires
        t.len() > 0,
        is_typed(t[0]),
        0 <= i,
        i + encode_utf8(t).len() == input.len(),
        input.skip(i) == encode_utf8(t),
    ensures
        key_at(input, i) == (KeyView::Text(seq![t[0]]), bytes::width(t[0])),
        i + bytes::width(t[0]) <= input.len(),
        input.skip(i + bytes::width(t[0])) == encode_utf8(t.drop_first()),
{
    let e = encode_utf8(t);
    let c = t[0];
    encode_utf8_first_scalar(t);
    char_is_scalar(c);
    bytes::lemma_encode_one(c);
    let n = bytes::width(c);
    let rest = encode_utf8(t.drop_first());
    assert(e =~= encode_scalar(c as u32) + rest);
    assert(e.len() == n + rest.len());
    assert(e[0] == input.skip(i)[0]);
    assert(input[i] == e[0]);
    assert(valid_first_scalar(e));
    assert(length_of_first_scalar(e) == n);
    assert(input.subrange(i, i + n) =~= e.subrange(0, n));
    let s = e.subrange(0, n);
    assert(input.skip(i + n) =~= rest) by {
        assert forall|k: int| 0 <= k < rest.len() implies input.skip(i + n)[k] == rest[k] by {
            assert(input.skip(i)[n + k] == e[n + k]);
        }
    }
    if n == 1 {
        let u = c as u32;
        let b = e[0];
        assert(b == (u & 0x7f) as u8);
        assert(u <= 0x7f ==> (u & 0x7f) as u8 == u) by (bit_vector);
        assert(b as u32 == u);
        char_u32_cast(c, u);
        assert(b as char == c);
    } else {
        assert(lead_width(e[0]) == n);
        assert(s[0] == e[0]);
        assert(decode_first_codepoint(s) == decode_first_codepoint(e));
        assert(valid_first_scalar(s));
        assert(pop_first_scalar(s) =~= Seq::<u8>::empty());
        assert(valid_utf8(pop_first_scalar(s)));
        assert(valid_utf8(s));
        assert(decode_utf8(pop_first_scalar(s)) =~= Seq::<char>::empty());
        assert(decode_utf8(s) =~= seq![decode_first_scalar(s) as char]);
        char_u32_cast(c, decode_first_scalar(s));
    }
}

/// Feeding the UTF-8 form of a text without control characters inserts the
/// text before the cursor, whatever its language.
pub proof fn law_text_is_typed(f: FedView, t: Seq<char>, input: Seq<u8>, i: int)
    requires
        forall|k: int| 0 <= k < t.len() ==> is_typed(#[trigger] t[k]),
        f.editor.wf(),
        0 <= i <= input.len(),
        input.skip(i) == encode_utf8(t),
    ensures
        fed(f, input, i) == (FedView {
            editor: f.editor.insert(t),
            redraw: f.redraw || t.len() > 0,
            ..f
        }),
    decreases t.len(),
{
    if t.len() == 0 {
        assert(input.skip(i).len() == 0);
        assert(f.editor.insert(t).line =~= f.editor.line);
    } else {
        assert(input.skip(i).len() == input.len() - i);
        lemma_key_of_char(t, input, i);
        let next = FedView { editor: f.editor.insert(seq![t[0]]), redraw: true, ..f };
        let rest = t.drop_first();
        assert forall|k: int| 0 <= k < rest.len() implies is_typed(#[trigger] rest[k]) by {
            assert(rest[k] == t[k + 1]);
        }
        law_text_is_typed(next, rest, input, i + bytes::width(t[0]));
        assert(next.editor.insert(rest).line =~= f.editor.insert(t).line);
    }
}

/// An editor whose cursor stands between two pieces of the line.
pub open spec fn at_cursor(e: EditorView, before: Seq<char>, after: Seq<char>) -> bool {
    e.line == before + after && e.cursor == before.len()
}

/// Typing puts a text between what stands before and behind the cursor, the key
/// that deletes backwards takes away what stands right before it, and the other
/// one what stands right behind it; the cursor stays between the two.
pub proof fn law_keys_change_the_line_at_the_cursor(
    e: EditorView,
    before: Seq<char>,
    c: char,
    after: Seq<char>,
    s: Seq<char>,
)
    ensures
        at_cursor(e, before, after) ==> at_cursor(e.press(KeyView::Text(s)), before + s, after),
        at_cursor(e, before.push(c), after) ==> at_cursor(
            e.press(KeyView::Backspace),
            before,
            after,
        ),
        at_cursor(e, before, seq![c] + after) ==> at_cursor(
            e.press(KeyView::Delete),
            before,
            after,
        ),
        at_cursor(e, before.push(c), after) ==> at_cursor(
            e.press(KeyView::Left),
            before,
            seq![c] + after,
        ),
        at_cursor(e, before, seq![c] + after) ==> at_cursor(
            e.press(KeyView::Right),
            before.push(c),
            after,
        ),
        at_cursor(e, before, after) ==> at_cursor(e.press(KeyView::Home), Seq::empty(), e.line),
        at_cursor(e, before, after) ==> at_cursor(e.press(KeyView::End), e.line, Seq::empty()),
        at_cursor(e.press(KeyView::ClearLine), Seq::empty(), Seq::empty()),
        e.press(KeyView::ClearScreen) == e,
        e.press(KeyView::Enter) == e,
        e.press(KeyView::Nothing) == e,
{
    let empty = Seq::<char>::empty();
    assert(empty + e.line =~= e.line);
    assert(e.line + empty =~= e.line);
    assert(empty + empty =~= empty);
    if at_cursor(e, before, after) {
        assert(e.line.take(e.cursor) =~= before);
        assert(e.line.skip(e.cursor) =~= after);
    }
    if at_cursor(e, before.push(c), after) {
        assert(e.line.remove(e.cursor - 1) =~= before + after);
        assert(before + (seq![c] + after) =~= e.line);
    }
    if at_cursor(e, before, seq![c] + after) {
        assert(e.line.remove(e.cursor) =~= before + after);
        assert(before.push(c) + after =~= e.line);
    }
}

/// At the start of the line there is nothing to the left, at its end nothing to
/// the right: keys that go there change nothing and show nothing new.
pub proof fn law_edges_hold(e: EditorView, before: Seq<char>)
    ensures
        at_cursor(e, Seq::empty(), e.line) ==> e.press(KeyView::Backspace) == e && e.press(
            KeyView::Left,
        ) == e && !e.reacts(KeyView::Backspace) && !e.reacts(KeyView::Left),
        at_cursor(e, e.line, Seq::empty()) ==> e.press(KeyView::Delete) == e && e.press(
            KeyView::Right,
        ) == e && !e.reacts(KeyView::Delete) && !e.reacts(KeyView::Right),
        e.hist_idx == 0 ==> e.press(KeyView::Up) == e && !e.reacts(KeyView::Up),
        e.hist_idx == e.history.len() ==> e.press(KeyView::Down) == e && !e.reacts(KeyView::Down),
{
}

/// The line is shown anew for every key that changes it or the place in it, for
/// the two that go to its ends, for text and for both that clear something.
pub proof fn law_changes_are_shown(e: EditorView, key: KeyView)
    ensures
        e.press(key) != e ==> e.reacts(key),
        key is Home || key is End || key is ClearLine || key is ClearScreen || key is Text
            ==> e.reacts(key),
        key is Enter || key is Nothing ==> !e.reacts(key),
{
}

/// What the line holds after going back so many entries.
pub open spec fn up_times(e: EditorView, n: nat) -> EditorView
    decreases n,
{
    if n == 0 {
        e
    } else {
        up_times(e, (n - 1) as nat).press(KeyView::Up)
    }
}

/// Going back shows the entries from the last to the first, with the cursor
/// behind them, and going on shows them the other way, up to an empty line.
pub proof fn law_history_is_walked(e: EditorView, n: nat)
    requires
        e.wf(),
        e.hist_idx == e.history.len(),
        1 <= n <= e.history.len(),
    ensures
        up_times(e, n).line == e.history[e.history.len() - n],
        up_times(e, n).cursor == up_times(e, n).line.len(),
        up_times(e, n).hist_idx == e.history.len() - n,
        up_times(e, n).history == e.history,
        n > 1 ==> up_times(e, n).press(KeyView::Down).line == e.history[e.history.len() - n + 1],
        n == 1 ==> up_times(e, n).press(KeyView::Down).line == Seq::<char>::empty(),
        up_times(e, n).press(KeyView::Down).cursor == up_times(e, n).press(
            KeyView::Down,
        ).line.len(),
        up_times(e, n).press(KeyView::Down).hist_idx == e.history.len() - n + 1,
    decreases n,
{
    if n > 1 {
        law_history_is_walked(e, (n - 1) as nat);
    } else {
        assert(up_times(e, 0) == e);
    }
}

/// A line that is entered is given on without the white space around it and
/// comes last in the history, unless it stands there already; a blank one is
/// neither. Either way the next line is empty and the history at its end.
pub proof fn law_entered_lines(e: EditorView, a: Seq<char>, cmd: Seq<char>, b: Seq<char>)
    requires
        text::all_space(a),
        text::all_space(b),
        cmd.len() > 0,
        !text::is_space(cmd[0]),
        !text::is_space(cmd.last()),
    ensures
        e.line == a + cmd + b ==> e.command() == Some(cmd),
        text::all_space(e.line) ==> e.command() is None && e.entered().history == e.history,
        e.line == a + cmd + b && (e.history.len() == 0 || e.history.last() != cmd)
            ==> e.entered().history == e.history + seq![cmd],
        e.line == a + cmd + b && e.history.len() > 0 && e.history.last() == cmd
            ==> e.entered().history == e.history,
        e.entered().line == Seq::<char>::empty(),
        e.entered().cursor == 0,
        e.entered().hist_idx == e.entered().history.len(),
{
    text::law_trimmed_between(a, cmd, b);
    let cut = text::law_trim_takes_white_space(e.line);
    assert(e.history.push(cmd) =~= e.history + seq![cmd]);
}

/// Whether a sequence of a function key stands at a place.
pub open spec fn sequence_at(input: Seq<u8>, i: int, c: u8) -> bool {
    i + 2 < input.len() && input[i] == 27 && input[i + 1] == 91 && input[i + 2] == c
}

/// Which bytes are which key, and how many of them belong to it.
pub proof fn law_bytes_are_keys(input: Seq<u8>, i: int)
    requires
        0 <= i < input.len(),
    ensures
        ({
            let (key, width) = key_at(input, i);
            let b = input[i];
            &&& key is Enter <==> b == 13 || b == 10
            &&& key is Backspace <==> b == 127 || b == 8
            &&& key is Up <==> sequence_at(input, i, 65)
            &&& key is Down <==> sequence_at(input, i, 66)
            &&& key is Right <==> sequence_at(input, i, 67)
            &&& key is Left <==> sequence_at(input, i, 68)
            &&& key is Home <==> sequence_at(input, i, 72) || b == 1
            &&& key is End <==> sequence_at(input, i, 70) || b == 5
            &&& key is Delete <==> sequence_at(input, i, 51) && i + 3 < input.len() && input[i + 3]
                == 126
            &&& key is ClearLine <==> b == 21
            &&& key is ClearScreen <==> b == 12
            &&& 32 <= b < 127 ==> key == KeyView::Text(seq![b as char]) && width == 1
            &&& key is Delete ==> width == 4
            &&& b == 27 && i + 2 < input.len() && input[i + 1] == 91 && !(key is Delete)
                ==> width == 3
            &&& b < 128 && b != 27 ==> width == 1
            &&& b == 27 && (i + 2 >= input.len() || input[i + 1] != 91) ==> width == 1 && key
                == KeyView::Nothing
            &&& b < 32 && key is Text ==> false
        }),
{
}

/// A line ends at the first key that enters it: what comes behind it is not
/// taken, and nothing is entered without such a key.
pub proof fn law_enter_ends_the_line(f: FedView, input: Seq<u8>, i: int, rest: Seq<u8>)
    requires
        0 <= i <= input.len(),
    ensures
        i < input.len() && (input[i] == 13 || input[i] == 10) ==> fed(f, input, i) == (FedView {
            enter: true,
            ..f
        }),
        !f.enter && !input.contains(13u8) && !input.contains(10u8) ==> !fed(f, input, i).enter,
        i == input.len() ==> fed(f, input, i) == f,
        fed(f, input, i).clears >= f.clears,
        f.redraw ==> fed(f, input, i).redraw,
        fed(f, input, i).editor != f.editor ==> fed(f, input, i).redraw,
        !input.contains(12u8) ==> fed(f, input, i).clears == f.clears,
        i < input.len() && input[i] == 12 ==> fed(f, input, i) == fed(
            (FedView { redraw: true, clears: f.clears + 1, ..f }),
            input,
            i + 1,
        ),
    decreases input.len() - i,
{
    if i < input.len() {
        let key = key_at(input, i);
        if !(key.0 is Enter) {
            let g = FedView {
                editor: f.editor.press(key.0),
                redraw: f.redraw || f.editor.reacts(key.0),
                enter: f.enter,
                clears: f.clears + (if key.0 is ClearScreen {
                    1int
                } else {
                    0
                }),
            };
            if i + key.1 <= input.len() {
                law_enter_ends_the_line(g, input, i + key.1, rest);
            } else {
                assert(fed(g, input, i + key.1) == g);
            }
        }
        assert(input.contains(input[i]));
    }
}

/// The prompt shows the line, and goes back by what stands behind the cursor
/// and only then.
pub proof fn law_prompt_shows_the_cursor(e: EditorView, before: Seq<char>, after: Seq<char>)
    requires
        at_cursor(e, before, after),
    ensures
        after.len() == 0 ==> e.prompt() == "\r\u{1b}[K> "@ + before,
        after.len() > 0 ==> e.prompt() == "\r\u{1b}[K> "@ + (before + after) + "\u{1b}["@
            + number::dec(after.len()) + "D"@,
{
    if after.len() == 0 {
        assert(before + after =~= before);
    }
}

} // verus!
