//! Places in the input text: a character offset together with the line and
//! column it falls on.

use vstd::prelude::*;

verus! {

/// A place in the input text.
///
/// Before the first character has been read all three fields hold their
/// starting values: `index` and `column` are `-1` and `line` is `1`.
#[derive(Debug, Clone, Copy, PartialEq, Eq, Structural)]
pub struct Position {
    /// Offset of the current character, counted in characters.
    pub index: i128,
    /// Line of the current character; the first line is line 1.
    pub line: i128,
    /// Column of the current character; the first column is column 0.
    pub column: i128,
}

/// Whether `c` ends a line for the purpose of counting lines.
pub open spec fn is_line_break(c: char) -> bool {
    c == '\n' || c == '\r'
}

impl Position {
    /// The position held before any character has been read.
    pub open spec fn spec_start() -> Position {
        Position { index: -1i128, line: 1i128, column: -1i128 }
    }

    /// Every field is in its range: the index and the column are at least
    /// `-1`, the line is at least `1`.
    pub open spec fn valid(self) -> bool {
        self.index >= -1 && self.line >= 1 && self.column >= -1
    }

    /// The position reached by stepping past `current`, the character under
    /// the cursor before the step (`None` before the first character).
    pub open spec fn stepped(self, current: Option<char>) -> Position {
        if current is Some && is_line_break(current->0) {
            Position { index: (self.index + 1) as i128, line: (self.line + 1) as i128, column: 0 }
        } else {
            Position {
                index: (self.index + 1) as i128,
                line: self.line,
                column: (self.column + 1) as i128,
            }
        }
    }

    /// The position held before any character has been read.
    pub fn start() -> (p: Position)
        ensures
            p == Position::spec_start(),
    {
        Position { index: -1, line: 1, column: -1 }
    }

    /// Steps past `current_character`: the index grows by one; the line
    /// grows by one and the column returns to 0 when a line break is left
    /// behind, otherwise the column grows by one.
    pub fn advance(&mut self, current_character: &Option<char>) -> (position: &mut Self)
        requires
            old(self).index < i128::MAX,
            old(self).line < i128::MAX,
            old(self).column < i128::MAX,
        ensures
            *position == old(self).stepped(*current_character),
            *final(self) == *final(position),
            old(self).valid() ==> position.valid(),
    {
        self.index += 1;
        self.column += 1;
        let character = match current_character {
            Some(character) => *character,
            None => '\0',
        };
        if character == '\n' || character == '\r' {
            self.line += 1;
            self.column = 0;
        }

        self
    }
}

/// The line on which offset `i` of `s` falls: one more than the number of
/// line breaks before it.
pub open spec fn line_of(s: Seq<char>, i: int) -> int
    decreases i,
{
    if i <= 0 || i > s.len() {
        1
    } else if is_line_break(s[i - 1]) {
        line_of(s, i - 1) + 1
    } else {
        line_of(s, i - 1)
    }
}

/// The column on which offset `i` of `s` falls: the number of characters
/// between it and the last line break before it.
pub open spec fn column_of(s: Seq<char>, i: int) -> int
    decreases i,
{
    if i <= 0 || i > s.len() {
        0
    } else if is_line_break(s[i - 1]) {
        0
    } else {
        column_of(s, i - 1) + 1
    }
}

/// The number of line breaks among the first `i` characters of `s`.
pub open spec fn line_breaks_before(s: Seq<char>, i: int) -> nat {
    s.take(i).filter(|c: char| is_line_break(c)).len()
}

/// The line of an offset is one more than the number of line breaks before
/// it. The column of an offset is its distance from the character behind
/// the last line break before it, or from the start of the input where no
/// line break comes before it.
pub proof fn law_line_and_column(s: Seq<char>, i: int)
    requires
        0 <= i <= s.len(),
    ensures
        line_of(s, i) == 1 + line_breaks_before(s, i),
        0 <= column_of(s, i) <= i,
        forall|k: int| i - column_of(s, i) <= k < i ==> !is_line_break(#[trigger] s[k]),
        column_of(s, i) < i ==> is_line_break(s[i - column_of(s, i) - 1]),
    decreases i,
{
    let is_break = |c: char| is_line_break(c);
    if i == 0 {
        assert(s.take(0) =~= Seq::<char>::empty());
        assert(Seq::<char>::empty().filter(is_break).len() == 0);
    } else {
        law_line_and_column(s, i - 1);
        assert(s.take(i).drop_last() =~= s.take(i - 1));
        assert(s.take(i).last() == s[i - 1]);
        reveal(Seq::filter);
    }
}

/// Lines and columns never run ahead of the offset.
pub proof fn lemma_line_column_bounds(s: Seq<char>, i: int)
    ensures
        1 <= line_of(s, i) <= i + 1 || (i < 0 && line_of(s, i) == 1),
        0 <= column_of(s, i) <= i || (i < 0 && column_of(s, i) == 0),
    decreases i,
{
    if 0 < i <= s.len() {
        lemma_line_column_bounds(s, i - 1);
    }
}

} // verus!
