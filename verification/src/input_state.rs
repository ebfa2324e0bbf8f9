use vstd::prelude::*;
use vstd::string::StringExecFns;
use vstd::string::StrSliceExecFns;

use crate::textutil::chars_to_string;

verus! {

/// Mathematical value of the input engine: the entered text and the
/// cursor offset, a character index within `[0, text.len()]`.
#[verifier::ext_equal]
pub struct InputModel {
    pub text: Seq<char>,
    pub cursor: int,
}

/// The cursor always sits within the buffer.
pub open spec fn input_wf(m: InputModel) -> bool {
    0 <= m.cursor <= m.text.len()
}

/// Inserting a character at the cursor and stepping past it.
pub open spec fn push_model(m: InputModel, c: char) -> InputModel {
    InputModel { text: m.text.insert(m.cursor, c), cursor: m.cursor + 1 }
}

/// Removing the character before the cursor; a no-op at the start.
pub open spec fn pop_model(m: InputModel) -> InputModel {
    if m.cursor > 0 {
        InputModel { text: m.text.remove(m.cursor - 1), cursor: m.cursor - 1 }
    } else {
        m
    }
}

/// Stepping the cursor right, clamped to the end of the text.
pub open spec fn right_model(m: InputModel) -> InputModel {
    if m.cursor < m.text.len() {
        InputModel { cursor: m.cursor + 1, ..m }
    } else {
        m
    }
}

/// Stepping the cursor left, clamped to the start.
pub open spec fn left_model(m: InputModel) -> InputModel {
    if m.cursor > 0 {
        InputModel { cursor: m.cursor - 1, ..m }
    } else {
        m
    }
}

/// A character-indexed buffer with a cursor, used for name and note entry.
#[derive(Debug, PartialEq, Eq)]
pub struct InputState {
    pub input: Vec<char>,
    pub cursor_position: usize,
}

impl View for InputState {
    type V = InputModel;

    open spec fn view(&self) -> InputModel {
        InputModel { text: self.input@, cursor: self.cursor_position as int }
    }
}

impl Clone for InputState {
    fn clone(&self) -> (r: Self)
        ensures
            r@ == self@,
    {
        InputState { input: self.input.clone(), cursor_position: self.cursor_position }
    }
}

impl InputState {
    /// The cursor always sits within the buffer.
    pub open spec fn wf(&self) -> bool {
        input_wf(self@)
    }

    pub fn new() -> (r: Self)
        ensures
            r@ == (InputModel { text: Seq::empty(), cursor: 0 }),
            r.wf(),
    {
        let r = InputState { input: Vec::new(), cursor_position: 0 };
        proof {
            assert(r@.text =~= Seq::<char>::empty());
        }
        r
    }

    /// The entered text.
    pub fn get_input(&self) -> (r: String)
        ensures
            r@ == self@.text,
    {
        chars_to_string(&self.input)
    }

    /// Inserts the character at the cursor, then advances the cursor past
    /// it.
    pub fn push(&mut self, c: char)
        requires
            old(self).wf(),
        ensures
            final(self)@ == push_model(old(self)@, c),
            final(self).wf(),
    {
        self.input.insert(self.cursor_position, c);
        self.cursor_right();
    }

    /// Moves the cursor one character right, clamped to the end.
    pub fn cursor_right(&mut self)
        ensures
            final(self)@ == right_model(old(self)@),
            old(self).wf() ==> final(self).wf(),
    {
        if self.cursor_position < self.input.len() {
            self.cursor_position = self.cursor_position + 1;
        }
    }

    /// Moves the cursor one character left, clamped to the start.
    pub fn cursor_left(&mut self)
        ensures
            final(self)@ == left_model(old(self)@),
            old(self).wf() ==> final(self).wf(),
    {
        if self.cursor_position > 0 {
            self.cursor_position = self.cursor_position - 1;
        }
    }

    /// The text with the entry prompt in front, as shown while editing.
    pub fn input_display(&self) -> (r: String)
        ensures
            r@ == ">> "@ + self@.text,
    {
        let mut s = String::from_str(">> ");
        let t = self.get_input();
        s.append(t.as_str());
        s
    }

    /// Removes the character just before the cursor and steps the cursor
    /// back; a no-op when the cursor is at the start.
    pub fn pop(&mut self)
        requires
            old(self).wf(),
        ensures
            final(self)@ == pop_model(old(self)@),
            final(self).wf(),
    {
        if self.cursor_position > 0 {
            self.input.remove(self.cursor_position - 1);
            self.cursor_position = self.cursor_position - 1;
        }
    }
}

/// The buffer after entering a sequence of characters one by one.
pub open spec fn push_all(m: InputModel, cs: Seq<char>) -> InputModel
    decreases cs.len(),
{
    if cs.len() == 0 {
        m
    } else {
        push_all(push_model(m, cs[0]), cs.drop_first())
    }
}

/// Entering characters at a cursor that sits at the end appends them: the
/// buffer then holds exactly the entered text, with the cursor after it.
pub proof fn lemma_push_all_appends(m: InputModel, cs: Seq<char>)
    requires
        input_wf(m),
        m.cursor == m.text.len(),
    ensures
        push_all(m, cs).text == m.text + cs,
        push_all(m, cs).cursor == m.text.len() + cs.len(),
        input_wf(push_all(m, cs)),
    decreases cs.len(),
{
    if cs.len() == 0 {
        assert(m.text + cs =~= m.text);
    } else {
        let m2 = push_model(m, cs[0]);
        assert(m2.text =~= m.text + seq![cs[0]]);
        lemma_push_all_appends(m2, cs.drop_first());
        assert((m.text + seq![cs[0]]) + cs.drop_first() =~= m.text + cs);
    }
}

/// Entering a sequence of characters into a fresh buffer yields exactly
/// that sequence, and the cursor never leaves `[0, len]` under any
/// operation (each operation's contract keeps `input_wf`).
pub proof fn lemma_enter_text(cs: Seq<char>)
    ensures
        push_all(InputModel { text: Seq::empty(), cursor: 0 }, cs).text == cs,
        input_wf(push_all(InputModel { text: Seq::empty(), cursor: 0 }, cs)),
{
    let m = InputModel { text: Seq::empty(), cursor: 0 };
    lemma_push_all_appends(m, cs);
    assert(m.text + cs =~= cs);
}

/// The lines that first-fit word wrapping gives a text at a width. The
/// exact line breaks are the wrapping library's own; they depend on the
/// text and the width alone.
pub uninterp spec fn wrapped_of(text: Seq<char>, width: int) -> Seq<Seq<char>>;

/// Relies on textwrap::wrap with WrapAlgorithm::FirstFit: greedy first-fit
/// word wrapping of the text into lines at most `width` columns wide.
#[verifier::external_body]
fn wrap_first_fit(text: &str, width: usize) -> (r: Vec<String>)
    ensures
        r.deep_view() == wrapped_of(text@, width as int),
{
    let options = textwrap::Options::new(width).wrap_algorithm(textwrap::WrapAlgorithm::FirstFit);
    textwrap::wrap(text, options).into_iter().map(|line| line.into_owned()).collect()
}

/// The wrapped (row, column) of a character offset within a sequence of
/// display lines: the offset walks the lines in order, and the first
/// line long enough to hold what remains of it is the cursor's line. An
/// offset past the whole text sits at the end of the last line, and an
/// empty line sequence puts it at the origin.
pub open spec fn spec_locate(lines: Seq<Seq<char>>, off: int) -> (int, int)
    decreases lines.len(),
{
    if lines.len() == 0 {
        (0, 0)
    } else if off <= lines[0].len() {
        (0, off)
    } else if lines.len() == 1 {
        (0, lines[0].len() as int)
    } else {
        let p = spec_locate(lines.drop_first(), off - lines[0].len());
        (p.0 + 1, p.1)
    }
}

/// A coordinate clamped into `[0, limit - 1]` (to 0 when the limit is 0).
pub open spec fn spec_clamp(v: int, limit: int) -> int {
    if limit <= 0 {
        0
    } else if v < limit - 1 {
        v
    } else {
        limit - 1
    }
}

impl InputState {
    /// The screen cell for the cursor inside a bordered viewport at
    /// `(x, y)` of the given width and height: the (row, column) of the
    /// cursor's offset within the wrapped display text — the prompt puts
    /// it three characters in — each coordinate clamped into the
    /// viewport's content area.
    pub fn calculate_cursor_coordinates_wrapped(
        &self,
        x: u16,
        y: u16,
        width: u16,
        height: u16,
    ) -> (r: (u16, u16))
        requires
            self.wf(),
            self@.text.len() + 3 <= usize::MAX,
            width >= 2,
            height >= 2,
            x + width <= u16::MAX,
            y + height <= u16::MAX,
        ensures
            ({
                let lines = wrapped_of(">> "@ + self@.text, width - 2);
                let cell = spec_locate(lines, self@.cursor + 3);
                r.0 == x + 1 + spec_clamp(cell.1, width - 2) && r.1 == y + 1 + spec_clamp(
                    cell.0,
                    height - 2,
                )
            }),
    {
        let text = self.input_display();
        let text_width = (width - 2) as usize;
        let lines = wrap_first_fit(text.as_str(), text_width);
        let offset = self.cursor_position + 3;
        cursor_cell_in(&lines, offset, x, y, width, height)
    }
}

/// The wrapped line holding the character offset, and the offset's
/// column within it, over the lines `v[i..]`.
fn locate_lines(lines: &Vec<String>, i: usize, off: usize) -> (r: (usize, usize))
    requires
        i <= lines.len(),
    ensures
        (r.0 as int, r.1 as int) == spec_locate(lines.deep_view().skip(i as int), off as int),
        i < lines@.len() ==> r.0 < lines@.len() - i,
        i == lines@.len() ==> r.0 == 0,
    decreases lines.len() - i,
{
    proof {
        assert(lines.deep_view().len() == lines@.len());
    }
    if i == lines.len() {
        proof {
            assert(lines.deep_view().skip(i as int) =~= Seq::<Seq<char>>::empty());
        }
        (0, 0)
    } else {
        let n = lines[i].as_str().unicode_len();
        proof {
            assert(lines.deep_view().skip(i as int)[0] == lines@[i as int]@);
            assert(lines.deep_view().skip(i as int).drop_first() =~= lines.deep_view().skip(
                i as int + 1,
            ));
        }
        if off <= n {
            (0, off)
        } else if i + 1 == lines.len() {
            (0, n)
        } else {
            let p = locate_lines(lines, i + 1, off - n);
            (p.0 + 1, p.1)
        }
    }
}

/// The screen cell for a character offset within the wrapped lines: its
/// wrapped (row, column), each clamped into the content area of the
/// bordered viewport.
pub fn cursor_cell_in(lines: &Vec<String>, off: usize, x: u16, y: u16, width: u16, height: u16) -> (r: (
    u16,
    u16,
))
    requires
        width >= 2,
        height >= 2,
        x + width <= u16::MAX,
        y + height <= u16::MAX,
    ensures
        ({
            let cell = spec_locate(lines.deep_view(), off as int);
            r.0 == x + 1 + spec_clamp(cell.1, width - 2) && r.1 == y + 1 + spec_clamp(
                cell.0,
                height - 2,
            )
        }),
{
    proof {
        assert(lines.deep_view().skip(0) =~= lines.deep_view());
    }
    let (row, col) = locate_lines(lines, 0, off);
    let content_w = width - 2;
    let content_h = height - 2;
    let col_cell: u16 = if content_w == 0 {
        0
    } else if col < (content_w - 1) as usize {
        col as u16
    } else {
        content_w - 1
    };
    let row_cell: u16 = if content_h == 0 {
        0
    } else if row < (content_h - 1) as usize {
        row as u16
    } else {
        content_h - 1
    };
    (x + 1 + col_cell, y + 1 + row_cell)
}

} // verus!
