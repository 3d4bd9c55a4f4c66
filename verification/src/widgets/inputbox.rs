//! The cursor of a text box: where it stands, what it selects, and how
//! typing and keys move it.
//!
//! Positions are counted in characters. A `String` is indexed in bytes, so
//! a position is turned into a byte index wherever the text is cut.

use vstd::prelude::*;
use vstd::string::StrSliceExecFns;
use vstd::string::StringExecFns;
use vstd::utf8::encode_utf8;
use crate::window::input_state::ImeString;

verus! {

/// The number of bytes that the first `index` characters of `s` take.
pub open spec fn byte_offset(s: Seq<char>, index: int) -> nat {
    encode_utf8(s.subrange(0, index)).len()
}

/// The smaller of a position and a length.
pub open spec fn clamp_index(index: int, len: int) -> int {
    if index >= len {
        len
    } else {
        index
    }
}

/// The byte index of the character number `index` of `s`; the length of
/// `s` in bytes where `s` has no such character.
pub fn convert_index(s: &str, index: usize) -> (r: usize)
    ensures
        r == byte_offset(s@, clamp_index(index as int, s@.len() as int)) as usize,
{
    let count: usize = s.unicode_len();
    if index >= count {
        proof {
            assert(s@.subrange(0, count as int) =~= s@);
        }
        s.len()
    } else {
        s.substring_char(0, index).len()
    }
}

/// The bytes that the characters from number `from` up to number `to` take.
pub fn convert_range(s: &str, from: usize, to: usize) -> (r: std::ops::Range<usize>)
    requires
        from <= to <= s@.len(),
    ensures
        r.start == byte_offset(s@, from as int) as usize,
        r.end == byte_offset(s@, to as int) as usize,
{
    if from == 0 && to == 0 {
        proof {
            assert(s@.subrange(0, 0) =~= Seq::<char>::empty());
        }
        return 0..0;
    }
    let start: usize = convert_index(s, from);
    let end: usize = convert_index(s, to);
    start..end
}

/// The text without the characters from number `from` up to number `to`.
pub open spec fn cut_out(s: Seq<char>, from: int, to: int) -> Seq<char> {
    s.subrange(0, from) + s.subrange(to, s.len() as int)
}

/// The text with `added` put in before the character number `at`.
pub open spec fn put_in(s: Seq<char>, at: int, added: Seq<char>) -> Seq<char> {
    s.subrange(0, at) + added + s.subrange(at, s.len() as int)
}

fn remove_chars(text: &mut String, from: usize, to: usize)
    requires
        from <= to <= old(text)@.len(),
    ensures
        final(text)@ == cut_out(old(text)@, from as int, to as int),
{
    let count: usize = text.as_str().unicode_len();
    let mut out: String = String::from_str(text.as_str().substring_char(0, from));
    out.append(text.as_str().substring_char(to, count));
    *text = out;
}

fn insert_chars(text: &mut String, at: usize, added: &str)
    requires
        at <= old(text)@.len(),
    ensures
        final(text)@ == put_in(old(text)@, at as int, added@),
{
    let count: usize = text.as_str().unicode_len();
    let mut out: String = String::from_str(text.as_str().substring_char(0, at));
    out.append(added);
    out.append(text.as_str().substring_char(at, count));
    *text = out;
}

/// A cursor as contracts see it.
pub struct PointerView {
    /// Where the selection starts.
    pub start: int,
    /// Where the selection ends; nothing is selected where it ends at its start.
    pub end: int,
    /// Whether the cursor stands at the start of the selection.
    pub is_start_current: bool,
}

impl PointerView {
    /// Where the cursor stands.
    pub open spec fn current(self) -> int {
        if self.is_start_current {
            self.start
        } else {
            self.end
        }
    }

    /// Whether anything is selected.
    pub open spec fn selects(self) -> bool {
        self.start != self.end
    }

    /// Whether the selection lies within a text of `len` characters.
    pub open spec fn fits(self, len: int) -> bool {
        0 <= self.start <= self.end <= len
    }

    /// The cursor without a selection at the position `at`.
    pub open spec fn at(at: int) -> PointerView {
        PointerView { start: at, end: at, is_start_current: false }
    }

    /// The cursor with its ends in order and within a text of `len` characters.
    pub open spec fn normalized(self, len: int) -> PointerView {
        let ordered = if self.start > self.end {
            PointerView {
                start: self.end,
                end: self.start,
                is_start_current: !self.is_start_current,
            }
        } else {
            self
        };
        PointerView {
            start: clamp_index(ordered.start, len),
            end: clamp_index(ordered.end, len),
            is_start_current: ordered.is_start_current,
        }
    }
}

/// The cursor of a text box, with the text that it selects.
#[derive(Clone, Copy, Debug)]
pub struct Pointer {
    start: usize,
    end: usize,
    is_start_current: bool,
}

impl View for Pointer {
    type V = PointerView;

    closed spec fn view(&self) -> PointerView {
        PointerView {
            start: self.start as int,
            end: self.end as int,
            is_start_current: self.is_start_current,
        }
    }
}

impl Default for Pointer {
    fn default() -> (p: Pointer)
        ensures
            p@ == PointerView::at(0),
    {
        Pointer { start: 0, end: 0, is_start_current: false }
    }
}

/// How far a cursor moves.
#[derive(Clone, Copy, Debug, PartialEq, Eq, Structural)]
pub enum PointerAmount {
    /// By characters.
    Char(isize),
    /// By words.
    Word(isize),
    /// By lines.
    Line(isize),
}

/// What a validator makes of an input.
#[derive(Debug)]
pub enum ValidatorResult {
    /// The input is taken.
    Valid,
    /// The input is refused, with a message to show and a hint whether it
    /// may be taken all the same.
    Invalid { message: Option<String>, allow_input: bool },
    /// The input is refused and the text box left.
    Banned,
    /// The text box has all it needs and is left.
    FinishType,
}

/// Decides which input a text box takes.
pub trait Validator {
    /// Judges `newly_input`, which is about to be put into `current_text`
    /// where `pointer` stands.
    fn validate(&self, newly_input: &str, current_text: &str, pointer: Pointer) -> ValidatorResult;

    /// Whether the input is judged at every change, not only when the text
    /// box is left.
    fn validate_when_change(&self) -> bool;
}

impl Pointer {
    /// A cursor at `current_pos`, with nothing selected.
    pub fn new(current_pos: usize) -> (p: Pointer)
        ensures
            p@ == PointerView::at(current_pos as int),
    {
        Pointer { start: current_pos, end: current_pos, is_start_current: false }
    }

    /// Where the selection starts.
    pub fn start(&self) -> (r: usize)
        ensures
            r == self@.start,
    {
        self.start
    }

    /// Where the selection ends.
    pub fn end(&self) -> (r: usize)
        ensures
            r == self@.end,
    {
        self.end
    }

    /// Whether the cursor stands at the start of the selection.
    pub fn is_start_current(&self) -> (r: bool)
        ensures
            r == self@.is_start_current,
    {
        self.is_start_current
    }

    /// The byte index in `text` of the position where the cursor stands.
    pub fn current_index(&self, text: &str) -> (r: usize)
        ensures
            r == byte_offset(text@, clamp_index(self@.current(), text@.len() as int)) as usize,
    {
        if self.is_start_current {
            convert_index(text, self.start)
        } else {
            convert_index(text, self.end)
        }
    }

    /// The position where the cursor stands, in characters.
    pub fn current_index_utf8(&self) -> (r: usize)
        ensures
            r == self@.current(),
    {
        if self.is_start_current {
            self.start
        } else {
            self.end
        }
    }

    /// Whether anything is selected.
    pub fn has_selected_text(&self) -> (r: bool)
        ensures
            r == self@.selects(),
    {
        self.start != self.end
    }

    /// Removes what is selected; the cursor stands where the selection
    /// started. Nothing happens where nothing is selected.
    pub fn delete_selected_text(&mut self, text: &mut String)
        requires
            old(self)@.selects() ==> old(self)@.fits(old(text)@.len() as int),
        ensures
            final(text)@ == if old(self)@.selects() {
                cut_out(old(text)@, old(self)@.start, old(self)@.end)
            } else {
                old(text)@
            },
            final(self)@ == (PointerView { end: old(self)@.start, ..old(self)@ }),
    {
        if self.has_selected_text() {
            remove_chars(text, self.start, self.end);
            self.end = self.start;
        }
    }

    /// The text and the cursor after a deletion.
    ///
    /// What is selected goes. Where nothing is selected, the character
    /// before the cursor goes and the cursor moves back by one; nothing
    /// happens at the start of the text or beyond its end.
    pub open spec fn deleted(p: PointerView, text: Seq<char>) -> (Seq<char>, PointerView) {
        if p.selects() {
            (cut_out(text, p.start, p.end), PointerView { end: p.start, ..p })
        } else if 0 < p.current() <= text.len() {
            (
                cut_out(text, p.current() - 1, p.current()),
                PointerView { start: p.start - 1, end: p.end - 1, ..p },
            )
        } else {
            (text, p)
        }
    }

    /// Removes what is selected, or the character before the cursor.
    pub fn delete(&mut self, text: &mut String)
        requires
            old(self)@.selects() ==> old(self)@.fits(old(text)@.len() as int),
        ensures
            (final(text)@, final(self)@) == Pointer::deleted(old(self)@, old(text)@),
    {
        if self.has_selected_text() {
            remove_chars(text, self.start, self.end);
            self.end = self.start;
        } else {
            let current: usize = self.current_index_utf8();
            if current > 0 && current <= text.as_str().unicode_len() {
                remove_chars(text, current - 1, current);
                self.start = self.start - 1;
                self.end = self.end - 1;
            }
        }
    }

    /// Moves the cursor to the start of the text.
    pub fn move_to_start(&mut self)
        ensures
            final(self)@ == (PointerView { start: 0, end: 0, is_start_current: true }),
    {
        self.start = 0;
        self.end = 0;
        self.is_start_current = true;
    }

    /// Moves the cursor to the end of the text.
    pub fn move_to_end(&mut self, text: &str)
        ensures
            final(self)@ == (PointerView {
                start: text@.len() as int,
                end: text@.len() as int,
                is_start_current: true,
            }),
    {
        let count: usize = text.unicode_len();
        self.start = count;
        self.end = count;
        self.is_start_current = true;
    }

    /// Selects the whole text.
    pub fn select_all(&mut self, text: &str)
        ensures
            final(self)@ == (PointerView {
                start: 0,
                end: text@.len() as int,
                is_start_current: false,
            }),
    {
        self.start = 0;
        self.end = text.unicode_len();
        self.is_start_current = false;
    }

    /// The selected text.
    pub fn get_selected_text<'a>(&self, text: &'a str) -> (r: &'a str)
        requires
            self@.fits(text@.len() as int),
        ensures
            r@ == text@.subrange(self@.start, self@.end),
    {
        text.substring_char(self.start, self.end)
    }

    /// The text and the cursor before new text is put in: what is selected
    /// has gone, unless the selection ends at the start of the text.
    pub open spec fn cleared(p: PointerView, text: Seq<char>) -> (Seq<char>, PointerView) {
        if p.selects() && p.end != 0 {
            (cut_out(text, p.start, p.end), PointerView { end: p.start, ..p })
        } else {
            (text, p)
        }
    }

    /// The text and the cursor after `new_text` has been put in where the
    /// cursor stands.
    ///
    /// Text that an input method is composing stays selected: the
    /// selection ends behind it. Other text moves the cursor behind it.
    pub open spec fn typed(p: PointerView, text: Seq<char>, new_text: ImeString) -> (
        Seq<char>,
        PointerView,
    ) {
        let at = clamp_index(p.current(), text.len() as int);
        match new_text {
            ImeString::Nothing => (text, p),
            ImeString::Ime { input, .. } => (
                put_in(text, at, input@),
                PointerView { start: p.start, end: p.end + input@.len(), is_start_current: false },
            ),
            ImeString::ImeOff(inner) => (
                put_in(text, at, inner@),
                PointerView {
                    start: p.start + inner@.len(),
                    end: p.start + inner@.len(),
                    is_start_current: p.is_start_current,
                },
            ),
        }
    }

    /// Removes what is selected to make room for new text: see [`Pointer::cleared`].
    pub fn clear_for_input(&mut self, text: &mut String)
        requires
            old(self)@.selects() && old(self)@.end != 0 ==> old(self)@.fits(old(text)@.len() as int),
        ensures
            (final(text)@, final(self)@) == Pointer::cleared(old(self)@, old(text)@),
    {
        if self.has_selected_text() && self.end != 0 {
            remove_chars(text, self.start, self.end);
            self.end = self.start;
        }
    }

    /// Puts `new_text` in where the cursor stands, if `verdict` is
    /// [`ValidatorResult::Valid`], and hands the verdict back.
    pub fn insert_validated(
        &mut self,
        text: &mut String,
        new_text: ImeString,
        verdict: ValidatorResult,
    ) -> (out: ValidatorResult)
        requires
            old(self)@.start + old(text)@.len() + typed_len(new_text) <= usize::MAX,
            old(self)@.end + old(text)@.len() + typed_len(new_text) <= usize::MAX,
        ensures
            out == verdict,
            verdict is Valid ==> (final(text)@, final(self)@) == Pointer::typed(
                old(self)@,
                old(text)@,
                new_text,
            ),
            !(verdict is Valid) ==> final(text)@ == old(text)@ && final(self)@ == old(self)@,
    {
        match verdict {
            ValidatorResult::Valid => {
                let count: usize = text.as_str().unicode_len();
                let current: usize = self.current_index_utf8();
                let at: usize = if current >= count {
                    count
                } else {
                    current
                };
                match new_text {
                    ImeString::Nothing => {},
                    ImeString::Ime { input, .. } => {
                        insert_chars(text, at, input.as_str());
                        self.is_start_current = false;
                        self.end = self.end + input.as_str().unicode_len();
                    },
                    ImeString::ImeOff(inner) => {
                        insert_chars(text, at, inner.as_str());
                        self.start = self.start + inner.as_str().unicode_len();
                        self.end = self.start;
                    },
                }
                ValidatorResult::Valid
            },
            other => other,
        }
    }

    /// Puts the text that was typed in where the cursor stands.
    ///
    /// Nothing happens for an empty input. Otherwise what is selected goes
    /// first; then text that was typed without an input method is put
    /// before `validator`, if there is one, and only an input that it calls
    /// valid is put in. Returns what the validator said, and
    /// [`ValidatorResult::Valid`] where it was not asked.
    pub fn insert_text(
        &mut self,
        text: &mut String,
        new_text: ImeString,
        validator: &Option<Box<dyn Validator>>,
    ) -> (out: ValidatorResult)
        requires
            old(self)@.selects() && old(self)@.end != 0 ==> old(self)@.fits(old(text)@.len() as int),
            old(self)@.start + old(text)@.len() + typed_len(new_text) <= usize::MAX,
            old(self)@.end + old(text)@.len() + typed_len(new_text) <= usize::MAX,
        ensures
            new_text.spec_is_empty() ==> out is Valid && final(text)@ == old(text)@ && final(self)@
                == old(self)@,
            !new_text.spec_is_empty() && (validator is None || !(new_text is ImeOff)) ==> out is Valid,
            !new_text.spec_is_empty() ==> {
                let (cleared_text, cleared) = Pointer::cleared(old(self)@, old(text)@);
                if out is Valid {
                    (final(text)@, final(self)@) == Pointer::typed(cleared, cleared_text, new_text)
                } else {
                    final(text)@ == cleared_text && final(self)@ == cleared
                }
            },
    {
        if new_text.is_empty() {
            return ValidatorResult::Valid;
        }
        self.clear_for_input(text);
        let verdict: ValidatorResult = match &new_text {
            ImeString::ImeOff(inner) => match validator {
                Some(validator) => validator.validate(inner.as_str(), text.as_str(), *self),
                None => ValidatorResult::Valid,
            },
            _ => ValidatorResult::Valid,
        };
        self.insert_validated(text, new_text, verdict)
    }
}

/// The number of characters that an input holds.
pub open spec fn typed_len(new_text: ImeString) -> nat {
    match new_text {
        ImeString::Ime { input, .. } => input@.len(),
        ImeString::ImeOff(inner) => inner@.len(),
        ImeString::Nothing => 0,
    }
}


/// The characters of a text.
pub fn chars_of(s: &str) -> (v: Vec<char>)
    ensures
        v@ == s@,
{
    let mut v: Vec<char> = Vec::new();
    let count: usize = s.unicode_len();
    let mut i: usize = 0;
    while i < count
        invariant
            count == s@.len(),
            i <= count,
            v@ == s@.subrange(0, i as int),
        decreases count - i,
    {
        let c: char = s.get_char(i);
        v.push(c);
        assert(v@ =~= s@.subrange(0, i + 1));
        i = i + 1;
    }
    assert(s@.subrange(0, count as int) =~= s@);
    v
}

/// A line without the carriage return at its end, if it has one.
pub open spec fn strip_return(line: Seq<char>) -> Seq<char> {
    if line.len() > 0 && line.last() == '\r' {
        line.drop_last()
    } else {
        line
    }
}

/// The lines of `s` from the character number `i` on, where the line that
/// `i` lies in starts at `start`.
///
/// A line ends before a line feed, and before the carriage return that
/// stands before the line feed, if there is one. What follows the last
/// line feed is a line if it is not empty.
pub open spec fn lines_scan(s: Seq<char>, start: int, i: int) -> Seq<Seq<char>>
    decreases s.len() - i,
{
    if i >= s.len() {
        if start < s.len() {
            seq![s.subrange(start, s.len() as int)]
        } else {
            Seq::empty()
        }
    } else if s[i] == '\n' {
        seq![strip_return(s.subrange(start, i))] + lines_scan(s, i + 1, i + 1)
    } else {
        lines_scan(s, start, i + 1)
    }
}

/// The lines of a text.
pub open spec fn spec_lines(s: Seq<char>) -> Seq<Seq<char>> {
    lines_scan(s, 0, 0)
}

/// The texts that a list of slices shows.
pub open spec fn views_of(slices: Seq<&str>) -> Seq<Seq<char>> {
    Seq::new(slices.len(), |i: int| slices[i]@)
}

/// The lines of a text: see [`lines_scan`].
pub fn lines_of<'a>(text: &'a str) -> (lines: Vec<&'a str>)
    ensures
        views_of(lines@) == spec_lines(text@),
{
    let chars: Vec<char> = chars_of(text);
    let count: usize = chars.len();
    let mut lines: Vec<&'a str> = Vec::new();
    let mut start: usize = 0;
    let mut i: usize = 0;
    proof {
        assert(views_of(lines@) + lines_scan(text@, 0, 0) =~= spec_lines(text@));
    }
    while i < count
        invariant
            chars@ == text@,
            count == text@.len(),
            start <= i <= count,
            views_of(lines@) + lines_scan(text@, start as int, i as int) == spec_lines(text@),
        decreases count - i,
    {
        if chars[i] == '\n' {
            let end: usize = if i > start && chars[i - 1] == '\r' {
                i - 1
            } else {
                i
            };
            let line: &'a str = text.substring_char(start, end);
            let ghost before = views_of(lines@);
            lines.push(line);
            proof {
                let whole = text@.subrange(start as int, i as int);
                assert(line@ =~= strip_return(whole)) by {
                    if i > start && chars@[i - 1] == '\r' {
                        assert(whole.last() == '\r');
                        assert(whole.drop_last() =~= text@.subrange(start as int, i - 1));
                    } else if whole.len() > 0 {
                        assert(whole.last() == chars@[i - 1]);
                    }
                }
                assert(views_of(lines@) =~= before + seq![line@]);
                assert(views_of(lines@) + lines_scan(text@, i + 1, i + 1) =~= before + lines_scan(
                    text@,
                    start as int,
                    i as int,
                ));
            }
            start = i + 1;
        }
        i = i + 1;
    }
    if start < count {
        let line: &'a str = text.substring_char(start, count);
        let ghost before = views_of(lines@);
        lines.push(line);
        proof {
            assert(views_of(lines@) =~= before + seq![line@]);
        }
    } else {
        proof {
            assert(views_of(lines@) + Seq::<Seq<char>>::empty() =~= views_of(lines@));
        }
    }
    lines
}

/// The position and the line that a walk over the first `k` lines reaches
/// on its way to `target`: past every line that ends before `target`.
pub open spec fn line_walk(lens: Seq<int>, k: int, target: int) -> (int, int)
    decreases k,
{
    if k <= 0 || k > lens.len() {
        (0, 0)
    } else {
        let (index, line) = line_walk(lens, k - 1, target);
        if index + lens[k - 1] < target {
            (index + lens[k - 1] + 1, line + 1)
        } else {
            (index, line)
        }
    }
}

/// The lengths of some lines.
pub open spec fn lengths_of(lines: Seq<Seq<char>>) -> Seq<int> {
    Seq::new(lines.len(), |i: int| lines[i].len() as int)
}

/// The line that a walk over the lines of `text` reaches on its way to `target`.
pub open spec fn line_of(text: Seq<char>, target: int) -> int {
    line_walk(lengths_of(spec_lines(text)), spec_lines(text).len() as int, target).1
}

fn walk_lines(lines: &Vec<&str>, target: usize) -> (line: usize)
    ensures
        line == line_walk(lengths_of(views_of(lines@)), lines@.len() as int, target as int).1,
        line <= lines@.len(),
{
    let ghost lens = lengths_of(views_of(lines@));
    let count: usize = lines.len();
    let mut index: u128 = 0;
    let mut line: usize = 0;
    let mut k: usize = 0;
    while k < count
        invariant
            count == lines@.len(),
            lens == lengths_of(views_of(lines@)),
            k <= count,
            index == line_walk(lens, k as int, target as int).0,
            line == line_walk(lens, k as int, target as int).1,
            line <= k,
            index <= k * 0x1_0000_0000_0000_0000,
        decreases count - k,
    {
        let len: usize = lines[k].unicode_len();
        proof {
            assert(lens[k as int] == len);
        }
        if index + (len as u128) < target as u128 {
            index = index + len as u128 + 1;
            line = line + 1;
        }
        k = k + 1;
    }
    line
}

impl Pointer {
    /// The selected text, line by line.
    pub fn get_selected_text_lines<'a>(&self, text: &'a str) -> (r: Vec<&'a str>)
        requires
            self@.fits(text@.len() as int),
        ensures
            views_of(r@) == spec_lines(text@.subrange(self@.start, self@.end)),
    {
        lines_of(text.substring_char(self.start, self.end))
    }

    /// The lines of `text` that hold the selection: from the line that a
    /// walk to the start of the selection reaches up to the line that a
    /// walk to its end reaches.
    ///
    /// The walks must reach lines of the text, the first no later than the
    /// line after the second.
    pub fn get_selected_lines<'a>(&self, text: &'a str) -> (r: Vec<&'a str>)
        requires
            line_of(text@, self@.end) < spec_lines(text@).len(),
            line_of(text@, self@.start) <= line_of(text@, self@.end) + 1,
        ensures
            views_of(r@) == spec_lines(text@).subrange(
                line_of(text@, self@.start),
                line_of(text@, self@.end) + 1,
            ),
    {
        let lines: Vec<&'a str> = lines_of(text);
        let start_line: usize = walk_lines(&lines, self.start);
        let end_line: usize = walk_lines(&lines, self.end);
        let mut out: Vec<&'a str> = Vec::new();
        let mut k: usize = start_line;
        proof {
            assert(views_of(lines@).len() == lines@.len());
            assert(end_line == line_of(text@, self@.end));
            assert(start_line == line_of(text@, self@.start));
            assert(views_of(out@) =~= spec_lines(text@).subrange(start_line as int, k as int));
            assert(spec_lines(text@).len() == lines@.len());
            assert(end_line < lines@.len());
        }
        let count: usize = lines.len();
        let last: usize = end_line + 1;
        while k < last
            invariant
                views_of(lines@) == spec_lines(text@),
                last == end_line + 1,
                start_line <= k <= last,
                end_line < lines@.len(),
                views_of(out@) == spec_lines(text@).subrange(start_line as int, k as int),
            decreases last - k,
        {
            let ghost before = views_of(out@);
            out.push(lines[k]);
            proof {
                assert(views_of(lines@)[k as int] == lines@[k as int]@);
                assert(views_of(out@) =~= before + seq![lines@[k as int]@]);
                assert(views_of(out@) =~= spec_lines(text@).subrange(start_line as int, k + 1));
            }
            k = k + 1;
        }
        out
    }
}

/// Whether a character ends a word.
pub open spec fn spec_is_word_spliter(c: char) -> bool {
    c == ' ' || c == '\t' || c == '\n' || c == ';' || c == ',' || c == '.' || c == ':' || c == '!'
        || c == '?' || c == '(' || c == ')' || c == '[' || c == ']' || c == '{' || c == '}' || c
        == '<' || c == '>' || c == '/' || c == '\\' || c == '\'' || c == '"' || c == '@' || c == '#'
        || c == '$' || c == '%' || c == '^' || c == '&' || c == '*' || c == '-' || c == '_' || c
        == '+' || c == '=' || c == '|' || c == '`' || c == '~'
}

/// Whether a character ends a word: white space and punctuation do.
#[verifier::when_used_as_spec(spec_is_word_spliter)]
pub fn is_word_spliter(c: char) -> (r: bool)
    ensures
        r == spec_is_word_spliter(c),
{
    c == ' ' || c == '\t' || c == '\n' || c == ';' || c == ',' || c == '.' || c == ':' || c == '!'
        || c == '?' || c == '(' || c == ')' || c == '[' || c == ']' || c == '{' || c == '}' || c
        == '<' || c == '>' || c == '/' || c == '\\' || c == '\'' || c == '"' || c == '@' || c == '#'
        || c == '$' || c == '%' || c == '^' || c == '&' || c == '*' || c == '-' || c == '_' || c
        == '+' || c == '=' || c == '|' || c == '`' || c == '~'
}

/// Whether `c` parts two pieces: two lines, or else two words.
pub open spec fn parts(c: char, lines: bool) -> bool {
    if lines {
        c == '\n'
    } else {
        spec_is_word_spliter(c)
    }
}

/// The lengths of the pieces of `s` from the character number `i` on,
/// where the piece that `i` lies in starts at `start`. The pieces are what
/// stands between the characters that part them; a piece may be empty.
pub open spec fn pieces_scan(s: Seq<char>, lines: bool, start: int, i: int) -> Seq<int>
    decreases s.len() - i,
{
    if i >= s.len() {
        seq![s.len() - start]
    } else if parts(s[i], lines) {
        seq![i - start] + pieces_scan(s, lines, i + 1, i + 1)
    } else {
        pieces_scan(s, lines, start, i + 1)
    }
}

/// The number of pieces, from number `from` on, that end at or before
/// `pointer`, where the piece number `from` starts at `index`.
pub open spec fn pieces_before(lens: Seq<int>, from: int, index: int, pointer: int) -> int
    decreases lens.len() - from,
{
    if from < 0 || from >= lens.len() {
        0
    } else if index + lens[from] <= pointer {
        1 + pieces_before(lens, from + 1, index + lens[from] + 1, pointer)
    } else {
        0
    }
}

/// The number of characters of the first `k` pieces, each counted with
/// the character that parts it from the next.
pub open spec fn pieces_span(lens: Seq<int>, k: int) -> int
    decreases k,
{
    if k <= 0 {
        0
    } else if k > lens.len() {
        pieces_span(lens, lens.len() as int)
    } else {
        pieces_span(lens, k - 1) + lens[k - 1] + 1
    }
}

/// A position as a `usize` holds it: itself, or the largest `usize`.
pub open spec fn held(v: int) -> int {
    if v > usize::MAX {
        usize::MAX as int
    } else {
        v
    }
}

impl PointerView {
    /// The cursor with the end where it stands moved to `to`; without a
    /// selection, the cursor at `to`.
    pub open spec fn moved_to(self, to: int, with_selection: bool) -> PointerView {
        if with_selection {
            if self.is_start_current {
                PointerView { start: to, ..self }
            } else {
                PointerView { end: to, ..self }
            }
        } else {
            PointerView::at(to)
        }
    }

    /// The cursor moved by `amount` characters.
    ///
    /// A move before the start of the text stops at the start; with a
    /// selection whose end the cursor stands at, the selection goes then.
    pub open spec fn moved_chars(self, amount: int, with_selection: bool) -> PointerView {
        let to = self.current() + amount;
        if to < 0 {
            if with_selection && self.is_start_current {
                PointerView { start: 0, ..self }
            } else {
                PointerView::at(0)
            }
        } else {
            self.moved_to(held(to), with_selection)
        }
    }

    /// The cursor moved by `delta` pieces of the text: words or lines.
    ///
    /// The pieces that end at or before the cursor are counted, `delta` is
    /// added, and the cursor moves behind that many pieces; to the start
    /// of the text where that is none.
    pub open spec fn moved_pieces(
        self,
        text: Seq<char>,
        lines: bool,
        delta: int,
        with_selection: bool,
    ) -> PointerView {
        let lens = pieces_scan(text, lines, 0, 0);
        let to = pieces_before(lens, 0, 0, self.current()) + delta;
        if to <= 0 {
            self.moved_to(0, with_selection)
        } else {
            self.moved_to(held(pieces_span(lens, to)), with_selection)
        }
    }

    /// The cursor after a move by `amount` in `text`: moved, its ends put
    /// in order, and both within the text.
    pub open spec fn moved_by(self, text: Seq<char>, amount: PointerAmount, with_selection: bool) -> PointerView {
        (match amount {
            PointerAmount::Char(amount) => self.moved_chars(amount as int, with_selection),
            PointerAmount::Word(delta) => self.moved_pieces(text, false, delta as int, with_selection),
            PointerAmount::Line(delta) => self.moved_pieces(text, true, delta as int, with_selection),
        }).normalized(text.len() as int)
    }
}

/// The lengths of the pieces of a text: its lines, or else its words.
fn piece_lengths(chars: &Vec<char>, lines: bool) -> (lens: Vec<usize>)
    ensures
        lens@.len() >= 1,
        Seq::new(lens@.len(), |i: int| lens@[i] as int) == pieces_scan(chars@, lines, 0, 0),
{
    let count: usize = chars.len();
    let mut lens: Vec<usize> = Vec::new();
    let mut start: usize = 0;
    let mut i: usize = 0;
    let ghost all = pieces_scan(chars@, lines, 0, 0);
    proof {
        assert(Seq::new(lens@.len(), |k: int| lens@[k] as int) + pieces_scan(chars@, lines, 0, 0)
            =~= all);
    }
    while i < count
        invariant
            count == chars@.len(),
            start <= i <= count,
            Seq::new(lens@.len(), |k: int| lens@[k] as int) + pieces_scan(
                chars@,
                lines,
                start as int,
                i as int,
            ) == all,
        decreases count - i,
    {
        let c: char = chars[i];
        let is_part: bool = if lines {
            c == '\n'
        } else {
            is_word_spliter(c)
        };
        if is_part {
            let ghost before = Seq::new(lens@.len(), |k: int| lens@[k] as int);
            lens.push(i - start);
            proof {
                assert(Seq::new(lens@.len(), |k: int| lens@[k] as int) =~= before + seq![
                    i - start,
                ]);
                assert(Seq::new(lens@.len(), |k: int| lens@[k] as int) + pieces_scan(
                    chars@,
                    lines,
                    i + 1,
                    i + 1,
                ) =~= before + pieces_scan(chars@, lines, start as int, i as int));
            }
            start = i + 1;
        }
        i = i + 1;
    }
    let ghost before = Seq::new(lens@.len(), |k: int| lens@[k] as int);
    lens.push(count - start);
    proof {
        assert(Seq::new(lens@.len(), |k: int| lens@[k] as int) =~= before + seq![count - start]);
    }
    lens
}

fn count_pieces_before(lens: &Vec<usize>, pointer: usize) -> (count: usize)
    ensures
        count == pieces_before(Seq::new(lens@.len(), |i: int| lens@[i] as int), 0, 0, pointer as int),
        count <= lens@.len(),
{
    let ghost seq = Seq::new(lens@.len(), |i: int| lens@[i] as int);
    let total: usize = lens.len();
    let mut index: u128 = 0;
    let mut k: usize = 0;
    while k < total
        invariant
            total == lens@.len(),
            seq == Seq::new(lens@.len(), |i: int| lens@[i] as int),
            k <= total,
            index <= k * 0x1_0000_0000_0000_0000,
            k + pieces_before(seq, k as int, index as int, pointer as int) == pieces_before(
                seq,
                0,
                0,
                pointer as int,
            ),
        decreases total - k,
    {
        let len: usize = lens[k];
        proof {
            assert(seq[k as int] == len);
        }
        if index + len as u128 <= pointer as u128 {
            index = index + len as u128 + 1;
            k = k + 1;
        } else {
            return k;
        }
    }
    k
}

fn span_of_pieces(lens: &Vec<usize>, to: i128) -> (span: usize)
    requires
        to > 0,
    ensures
        span == held(pieces_span(Seq::new(lens@.len(), |i: int| lens@[i] as int), to as int)),
{
    let ghost seq = Seq::new(lens@.len(), |i: int| lens@[i] as int);
    let total: usize = lens.len();
    let mut sum: u128 = 0;
    let mut k: usize = 0;
    while k < total && (k as i128) < to
        invariant
            total == lens@.len(),
            seq == Seq::new(lens@.len(), |i: int| lens@[i] as int),
            k <= total,
            k <= to,
            sum == pieces_span(seq, k as int),
            sum <= k * 0x1_0000_0000_0000_0000,
        decreases total - k,
    {
        let len: usize = lens[k];
        proof {
            assert(seq[k as int] == len);
        }
        sum = sum + len as u128 + 1;
        k = k + 1;
    }
    proof {
        if k as int != to as int {
            assert(k == total);
            assert(pieces_span(seq, to as int) == pieces_span(seq, seq.len() as int));
        }
    }
    if sum > usize::MAX as u128 {
        usize::MAX
    } else {
        sum as usize
    }
}

impl Pointer {
    fn move_to(&mut self, to: usize, with_selection: bool)
        ensures
            final(self)@ == old(self)@.moved_to(to as int, with_selection),
    {
        if with_selection {
            if self.is_start_current {
                self.start = to;
            } else {
                self.end = to;
            }
        } else {
            self.start = to;
            self.end = to;
            self.is_start_current = false;
        }
    }

    /// Moves the cursor by `amount` in `text`; with `with_selection`, the
    /// other end of the selection stays where it is. See
    /// [`PointerView::moved_by`].
    pub fn move_by(&mut self, text: &str, amount: PointerAmount, with_selection: bool)
        ensures
            final(self)@ == old(self)@.moved_by(text@, amount, with_selection),
    {
        match amount {
            PointerAmount::Char(amount) => {
                let new_index: i128 = self.current_index_utf8() as i128 + amount as i128;
                if new_index < 0 {
                    if with_selection && self.is_start_current {
                        self.start = 0;
                    } else {
                        self.start = 0;
                        self.end = 0;
                        self.is_start_current = false;
                    }
                } else {
                    let to: usize = if new_index > usize::MAX as i128 {
                        usize::MAX
                    } else {
                        new_index as usize
                    };
                    self.move_to(to, with_selection);
                }
            },
            PointerAmount::Word(delta) => {
                self.move_pieces(text, false, delta, with_selection);
            },
            PointerAmount::Line(delta) => {
                self.move_pieces(text, true, delta, with_selection);
            },
        }
        if self.start > self.end {
            let start: usize = self.start;
            self.start = self.end;
            self.end = start;
            self.is_start_current = !self.is_start_current;
        }
        let len: usize = text.unicode_len();
        if self.start > len {
            self.start = len;
        }
        if self.end > len {
            self.end = len;
        }
    }

    fn move_pieces(&mut self, text: &str, lines: bool, delta: isize, with_selection: bool)
        ensures
            final(self)@ == old(self)@.moved_pieces(text@, lines, delta as int, with_selection),
    {
        let chars: Vec<char> = chars_of(text);
        let lens: Vec<usize> = piece_lengths(&chars, lines);
        let current_word: usize = count_pieces_before(&lens, self.current_index_utf8());
        let delta_word: i128 = current_word as i128 + delta as i128;
        if delta_word <= 0 {
            self.move_to(0, with_selection);
        } else {
            let ptr: usize = span_of_pieces(&lens, delta_word);
            self.move_to(ptr, with_selection);
        }
    }
}


/// Whether a character is a numeral, as `char::is_numeric` of the standard
/// library says: whether it has one of the general categories for numbers
/// of the Unicode standard.
pub uninterp spec fn is_numeric_char(c: char) -> bool;

/// `char::is_numeric`: whether the character has one of the general
/// categories for numbers.
#[verifier::external_body]
fn char_is_numeric(c: char) -> (r: bool)
    ensures
        r == is_numeric_char(c),
{
    c.is_numeric()
}

/// Whether a character is a decimal digit.
pub open spec fn is_digit(c: char) -> bool {
    '0' <= c && c <= '9'
}

/// Where the decimal digits that start at `i` end.
pub open spec fn digits_end(s: Seq<char>, i: int) -> int
    decreases s.len() - i,
{
    if 0 <= i < s.len() && is_digit(s[i]) {
        digits_end(s, i + 1)
    } else {
        i
    }
}

/// Where a sign at `i` ends, if there is one.
pub open spec fn sign_end(s: Seq<char>, i: int) -> int {
    if 0 <= i < s.len() && (s[i] == '+' || s[i] == '-') {
        i + 1
    } else {
        i
    }
}

/// Whether `s` from `from` on is the word that `lower` spells in small and
/// `upper` in capital letters, in any mix of both.
pub open spec fn spells(s: Seq<char>, from: int, lower: Seq<char>, upper: Seq<char>) -> bool {
    &&& s.len() - from == lower.len()
    &&& forall|k: int|
        0 <= k < lower.len() ==> s[from + k] == #[trigger] lower[k] || s[from + k] == upper[k]
}

/// Whether `s` from `from` on is a decimal number: digits with at most one
/// point among them, at least one digit, and then perhaps an exponent: `e`,
/// perhaps a sign, and at least one digit.
pub open spec fn is_number(s: Seq<char>, from: int) -> bool {
    let whole = digits_end(s, from);
    let pointed = whole < s.len() && s[whole] == '.';
    let mantissa = if pointed {
        digits_end(s, whole + 1)
    } else {
        whole
    };
    let digits = (whole - from) + if pointed {
        mantissa - (whole + 1)
    } else {
        0
    };
    &&& digits > 0
    &&& mantissa == s.len() || ((s[mantissa] == 'e' || s[mantissa] == 'E') && digits_end(
        s,
        sign_end(s, mantissa + 1),
    ) > sign_end(s, mantissa + 1) && digits_end(s, sign_end(s, mantissa + 1)) == s.len())
}

/// Whether `s` is a floating-point literal as the standard library reads
/// one: perhaps a sign, and then `inf`, `infinity` or `nan` in any mix of
/// small and capital letters, or a decimal number.
pub open spec fn float_literal(s: Seq<char>) -> bool {
    let from = sign_end(s, 0);
    ||| spells(s, from, seq!['i', 'n', 'f'], seq!['I', 'N', 'F'])
    ||| spells(
        s,
        from,
        seq!['i', 'n', 'f', 'i', 'n', 'i', 't', 'y'],
        seq!['I', 'N', 'F', 'I', 'N', 'I', 'T', 'Y'],
    )
    ||| spells(s, from, seq!['n', 'a', 'n'], seq!['N', 'A', 'N'])
    ||| is_number(s, from)
}

fn skip_digits(chars: &Vec<char>, from: usize) -> (end: usize)
    requires
        from <= chars@.len(),
    ensures
        end == digits_end(chars@, from as int),
        from <= end <= chars@.len(),
{
    let mut i: usize = from;
    while i < chars.len() && chars[i] >= '0' && chars[i] <= '9'
        invariant
            from <= i <= chars@.len(),
            digits_end(chars@, i as int) == digits_end(chars@, from as int),
        decreases chars@.len() - i,
    {
        i = i + 1;
    }
    i
}

fn skip_sign(chars: &Vec<char>, from: usize) -> (end: usize)
    requires
        from <= chars@.len(),
    ensures
        end == sign_end(chars@, from as int),
        from <= end <= chars@.len(),
{
    if from < chars.len() && (chars[from] == '+' || chars[from] == '-') {
        from + 1
    } else {
        from
    }
}

fn spells_word(chars: &Vec<char>, from: usize, lower: &Vec<char>, upper: &Vec<char>) -> (r: bool)
    requires
        from <= chars@.len(),
        lower@.len() == upper@.len(),
    ensures
        r == spells(chars@, from as int, lower@, upper@),
{
    if chars.len() - from != lower.len() {
        return false;
    }
    let count: usize = chars.len();
    let mut k: usize = 0;
    while k < lower.len()
        invariant
            count == chars@.len(),
            from <= chars@.len(),
            chars@.len() - from == lower@.len(),
            lower@.len() == upper@.len(),
            k <= lower@.len(),
            forall|j: int|
                0 <= j < k ==> chars@[from + j] == #[trigger] lower@[j] || chars@[from + j]
                    == upper@[j],
        decreases lower@.len() - k,
    {
        assert(from + k < chars@.len());
        let index: usize = from + k;
        if chars[index] != lower[k] && chars[index] != upper[k] {
            return false;
        }
        k = k + 1;
    }
    true
}

/// Whether a text is a floating-point literal: see [`float_literal`].
pub fn is_float_literal(chars: &Vec<char>) -> (r: bool)
    ensures
        r == float_literal(chars@),
{
    let from: usize = skip_sign(chars, 0);
    if spells_word(chars, from, &vec!['i', 'n', 'f'], &vec!['I', 'N', 'F']) {
        return true;
    }
    if spells_word(
        chars,
        from,
        &vec!['i', 'n', 'f', 'i', 'n', 'i', 't', 'y'],
        &vec!['I', 'N', 'F', 'I', 'N', 'I', 'T', 'Y'],
    ) {
        return true;
    }
    if spells_word(chars, from, &vec!['n', 'a', 'n'], &vec!['N', 'A', 'N']) {
        return true;
    }
    let whole: usize = skip_digits(chars, from);
    let pointed: bool = whole < chars.len() && chars[whole] == '.';
    let mantissa: usize = if pointed {
        skip_digits(chars, whole + 1)
    } else {
        whole
    };
    let digits: usize = (whole - from) + if pointed {
        mantissa - (whole + 1)
    } else {
        0
    };
    if digits == 0 {
        return false;
    }
    if mantissa == chars.len() {
        return true;
    }
    if chars[mantissa] != 'e' && chars[mantissa] != 'E' {
        return false;
    }
    let signed: usize = skip_sign(chars, mantissa + 1);
    let end: usize = skip_digits(chars, signed);
    end > signed && end == chars.len()
}

/// How a [`SimpleValidator`] checks numbers.
#[derive(Clone, Copy, Debug, PartialEq, Eq, Structural)]
pub enum NumerValidation {
    /// Only numerals are taken.
    Integer,
    /// The text must stay a floating-point literal.
    Float,
    /// Numbers are not checked.
    Off,
}

impl Default for NumerValidation {
    fn default() -> (v: NumerValidation)
        ensures
            v == NumerValidation::Off,
    {
        NumerValidation::Off
    }
}

/// A validator for everyday use.
#[derive(Clone, Copy, Debug)]
pub struct SimpleValidator {
    /// Whether a line feed is taken; where it is not, it ends the input.
    pub allow_breakline: bool,
    /// The largest number of characters that the text may have.
    pub limit: Option<usize>,
    /// How numbers are checked.
    pub number_validation: NumerValidation,
    /// Whether every input is refused.
    pub banned: bool,
    /// Whether the input is judged at every change.
    pub validate_when_change: bool,
}

impl Default for SimpleValidator {
    fn default() -> (v: SimpleValidator)
        ensures
            v == (SimpleValidator {
                allow_breakline: false,
                limit: None,
                number_validation: NumerValidation::Off,
                banned: false,
                validate_when_change: false,
            }),
    {
        SimpleValidator {
            allow_breakline: false,
            limit: None,
            number_validation: NumerValidation::Off,
            banned: false,
            validate_when_change: false,
        }
    }
}

/// What a [`SimpleValidator`] finds.
pub enum Verdict {
    /// The input is taken.
    Valid,
    /// Every input is refused.
    Banned,
    /// The text would grow beyond the limit.
    TooLong,
    /// The input holds a line feed, which ends the input.
    FinishType,
    /// The input holds something that is no numeral.
    NotDigits,
    /// The text would be no floating-point literal.
    NotNumber,
}

/// Whether the result `r` says what the verdict `v` is: for a refusal, with
/// the message of the verdict and the hint whether the input may be taken.
pub open spec fn shows(r: ValidatorResult, v: Verdict, empty: bool) -> bool {
    match v {
        Verdict::Valid => r is Valid,
        Verdict::Banned => r is Banned,
        Verdict::FinishType => r is FinishType,
        Verdict::TooLong => r matches ValidatorResult::Invalid { message, allow_input }
            && !allow_input && message is Some && message->0@ == "Too long"@,
        Verdict::NotDigits => r matches ValidatorResult::Invalid { message, allow_input }
            && allow_input && message is Some && message->0@ == "Only digits allowed"@,
        Verdict::NotNumber => r matches ValidatorResult::Invalid { message, allow_input }
            && allow_input && message is Some && message->0@ == (if empty {
            "Invalid number: cannot parse float from empty string"@
        } else {
            "Invalid number: invalid float literal"@
        }),
    }
}

impl SimpleValidator {
    /// The verdict on `input`, which is about to be put into `current`
    /// where the cursor `p` stands. The checks come in this order: the
    /// ban, the limit, the line feed, the numbers.
    pub open spec fn judged(self, input: Seq<char>, current: Seq<char>, p: PointerView) -> Verdict {
        if self.banned {
            Verdict::Banned
        } else if self.limit is Some && current.len() + input.len() > self.limit->0 {
            Verdict::TooLong
        } else if !self.allow_breakline && input.contains('\n') {
            Verdict::FinishType
        } else {
            match self.number_validation {
                NumerValidation::Integer => if exists|i: int|
                    0 <= i < input.len() && !is_numeric_char(#[trigger] input[i]) {
                    Verdict::NotDigits
                } else {
                    Verdict::Valid
                },
                NumerValidation::Float => if float_literal(
                    put_in(current, clamp_index(p.current(), current.len() as int), input),
                ) {
                    Verdict::Valid
                } else {
                    Verdict::NotNumber
                },
                NumerValidation::Off => Verdict::Valid,
            }
        }
    }

    /// Judges `newly_input`, which is about to be put into `current_text`
    /// where `pointer` stands: see [`SimpleValidator::judged`].
    pub fn check(&self, newly_input: &str, current_text: &str, pointer: Pointer) -> (r:
        ValidatorResult)
        ensures
            shows(
                r,
                self.judged(newly_input@, current_text@, pointer@),
                current_text@.len() + newly_input@.len() == 0,
            ),
    {
        if self.banned {
            return ValidatorResult::Banned;
        }
        let input: Vec<char> = chars_of(newly_input);
        let current: Vec<char> = chars_of(current_text);
        match self.limit {
            Some(limit) => {
                if current.len() as u128 + input.len() as u128 > limit as u128 {
                    return ValidatorResult::Invalid {
                        message: Some(String::from_str("Too long")),
                        allow_input: false,
                    };
                }
            },
            None => {},
        }
        if !self.allow_breakline && has_line_feed(&input) {
            return ValidatorResult::FinishType;
        }
        match self.number_validation {
            NumerValidation::Integer => {
                if all_numeric(&input) {
                    ValidatorResult::Valid
                } else {
                    ValidatorResult::Invalid {
                        message: Some(String::from_str("Only digits allowed")),
                        allow_input: true,
                    }
                }
            },
            NumerValidation::Float => {
                let at: usize = if pointer.current_index_utf8() >= current.len() {
                    current.len()
                } else {
                    pointer.current_index_utf8()
                };
                let joined: Vec<char> = with_input(&current, at, &input);
                if is_float_literal(&joined) {
                    ValidatorResult::Valid
                } else if joined.len() == 0 {
                    ValidatorResult::Invalid {
                        message: Some(
                            String::from_str("Invalid number: cannot parse float from empty string"),
                        ),
                        allow_input: true,
                    }
                } else {
                    ValidatorResult::Invalid {
                        message: Some(String::from_str("Invalid number: invalid float literal")),
                        allow_input: true,
                    }
                }
            },
            NumerValidation::Off => ValidatorResult::Valid,
        }
    }
}

fn has_line_feed(input: &Vec<char>) -> (r: bool)
    ensures
        r == input@.contains('\n'),
{
    let mut i: usize = 0;
    while i < input.len()
        invariant
            i <= input@.len(),
            forall|j: int| 0 <= j < i ==> input@[j] != '\n',
        decreases input@.len() - i,
    {
        if input[i] == '\n' {
            assert(input@[i as int] == '\n');
            return true;
        }
        i = i + 1;
    }
    false
}

fn all_numeric(input: &Vec<char>) -> (r: bool)
    ensures
        r == !(exists|i: int| 0 <= i < input@.len() && !is_numeric_char(#[trigger] input@[i])),
{
    let mut i: usize = 0;
    while i < input.len()
        invariant
            i <= input@.len(),
            forall|j: int| 0 <= j < i ==> is_numeric_char(#[trigger] input@[j]),
        decreases input@.len() - i,
    {
        if !char_is_numeric(input[i]) {
            assert(!is_numeric_char(input@[i as int]));
            return false;
        }
        i = i + 1;
    }
    true
}

fn with_input(current: &Vec<char>, at: usize, input: &Vec<char>) -> (joined: Vec<char>)
    requires
        at <= current@.len(),
    ensures
        joined@ == put_in(current@, at as int, input@),
{
    let mut joined: Vec<char> = Vec::new();
    let mut i: usize = 0;
    while i < at
        invariant
            at <= current@.len(),
            i <= at,
            joined@ == current@.subrange(0, i as int),
        decreases at - i,
    {
        joined.push(current[i]);
        assert(joined@ =~= current@.subrange(0, i + 1));
        i = i + 1;
    }
    let mut k: usize = 0;
    while k < input.len()
        invariant
            at <= current@.len(),
            k <= input@.len(),
            joined@ == current@.subrange(0, at as int) + input@.subrange(0, k as int),
        decreases input@.len() - k,
    {
        joined.push(input[k]);
        assert(joined@ =~= current@.subrange(0, at as int) + input@.subrange(0, k + 1));
        k = k + 1;
    }
    assert(input@.subrange(0, input@.len() as int) =~= input@);
    while i < current.len()
        invariant
            at <= i <= current@.len(),
            joined@ == current@.subrange(0, at as int) + input@ + current@.subrange(
                at as int,
                i as int,
            ),
        decreases current@.len() - i,
    {
        joined.push(current[i]);
        assert(joined@ =~= current@.subrange(0, at as int) + input@ + current@.subrange(
            at as int,
            i + 1,
        ));
        i = i + 1;
    }
    joined
}

impl Validator for SimpleValidator {
    /// Judges the input as [`SimpleValidator::check`] does: the verdict is
    /// that of [`SimpleValidator::judged`].
    fn validate(&self, newly_input: &str, current_text: &str, pointer: Pointer) -> (r: ValidatorResult)
        ensures
            shows(
                r,
                self.judged(newly_input@, current_text@, pointer@),
                current_text@.len() + newly_input@.len() == 0,
            ),
    {
        self.check(newly_input, current_text, pointer)
    }

    fn validate_when_change(&self) -> (r: bool)
        ensures
            r == self.validate_when_change,
    {
        self.validate_when_change
    }
}

} // verus!
