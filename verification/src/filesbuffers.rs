use vstd::prelude::*;

verus! {

/// A cursor motion request.
#[derive(Clone, Copy)]
pub enum Move {
    Left,
    Up,
    Right,
    Down,
}

/// One open document: its lines, the cursor, and the line count.
#[derive(Debug)]
pub struct FileBuffer {
    pub file: Vec<Vec<char>>,
    pub current_line: u16,
    pub current_column: u16,
    pub lines_number: u16,
    pub scroll_y: u16,
}

/// The mathematical content of a `FileBuffer`: its lines and its cursor.
#[verifier::ext_equal]
pub struct BufView {
    pub lines: Seq<Seq<char>>,
    pub line: int,
    pub col: int,
    pub scroll: int,
}

impl View for FileBuffer {
    type V = BufView;

    open spec fn view(&self) -> BufView {
        BufView {
            lines: self.lines(),
            line: self.current_line as int,
            col: self.current_column as int,
            scroll: self.scroll_y as int,
        }
    }
}

impl FileBuffer {
    /// The document as a mathematical sequence of lines of characters.
    pub open spec fn lines(self) -> Seq<Seq<char>> {
        Seq::new(self.file@.len(), |i: int| self.file@[i]@)
    }

    /// Well-formedness: the recorded line count is the true number of lines,
    /// the cursor stands on an existing line, and every line is short enough
    /// for a column to address.  The column is deliberately unconstrained: an
    /// upward move keeps the old column even past the new line's end.
    pub open spec fn wf(self) -> bool {
        &&& self.lines_number == self.lines().len()
        &&& (self.current_line as nat) < self.lines().len()
        &&& forall|i: int|
            0 <= i < self.lines().len() ==> (#[trigger] self.lines()[i]).len() <= u16::MAX
    }

    /// The line the cursor stands on.
    pub open spec fn cur_line(self) -> Seq<char> {
        self.lines()[self.current_line as int]
    }

    /// What a cursor motion does, as a value-level function.
    pub open spec fn move_cursor_spec(self, move_option: Move) -> FileBuffer {
        match move_option {
            Move::Left => if self.current_column > 0 {
                FileBuffer { current_column: (self.current_column - 1) as u16, ..self }
            } else {
                self
            },
            Move::Up => if self.current_line > 0 {
                FileBuffer { current_line: (self.current_line - 1) as u16, ..self }
            } else {
                self
            },
            Move::Right => if (self.current_column as nat) < self.cur_line().len() {
                FileBuffer { current_column: (self.current_column + 1) as u16, ..self }
            } else {
                self
            },
            Move::Down => if self.current_line + 1 < self.lines_number {
                FileBuffer { current_line: (self.current_line + 1) as u16, ..self }
            } else {
                self
            },
        }
    }

    /// Move the cursor one step, staying inside the document: left and up
    /// stop at zero, right stops at the line's length (the append position),
    /// down stops at the last line.
    pub fn move_cursor(&mut self, move_option: Move)
        requires
            old(self).wf(),
        ensures
            *final(self) == old(self).move_cursor_spec(move_option),
            final(self).wf(),
    {
        let columns_number = self.get_line_len();
        match move_option {
            Move::Left => {
                if self.current_column > 0 {
                    self.current_column = self.current_column - 1;
                }
            },
            Move::Up => {
                if self.current_line > 0 {
                    self.current_line = self.current_line - 1;
                }
            },
            Move::Right => {
                if self.current_column < columns_number {
                    self.current_column = self.current_column + 1;
                }
            },
            Move::Down => {
                if self.current_line + 1 < self.lines_number {
                    self.current_line = self.current_line + 1;
                }
            },
        }
    }

    /// Length of the current line, as a column number.
    fn get_line_len(&self) -> (n: u16)
        requires
            self.wf(),
        ensures
            n == self.cur_line().len(),
    {
        let line: &Vec<char> = &self.file[self.current_line as usize];
        line.len() as u16
    }

    /// Exclusive access to the line the cursor stands on.
    pub fn get_mut(&mut self) -> (line: &mut Vec<char>)
        requires
            old(self).wf(),
        ensures
            line@ == old(self).cur_line(),
            final(self).lines() =~= old(self).lines().update(
                old(self).current_line as int,
                final(line)@,
            ),
            final(self).current_line == old(self).current_line,
            final(self).current_column == old(self).current_column,
            final(self).lines_number == old(self).lines_number,
            final(self).scroll_y == old(self).scroll_y,
    {
        &mut self.file[self.current_line as usize]
    }

    /// Insert a fresh empty line right below the cursor's line and move the
    /// cursor to its start.  The line count grows by exactly one.
    pub fn create_line(&mut self)
        requires
            old(self).wf(),
            old(self).lines_number < u16::MAX,
        ensures
            final(self).lines() == old(self).lines().insert(
                old(self).current_line + 1,
                Seq::<char>::empty(),
            ),
            final(self).current_line == old(self).current_line + 1,
            final(self).current_column == 0,
            final(self).lines_number == old(self).lines_number + 1,
            final(self).scroll_y == old(self).scroll_y,
            final(self).wf(),
    {
        self.file.insert(self.current_line as usize + 1, Vec::new());
        self.current_line = self.current_line + 1;
        self.current_column = 0;
        self.lines_number = self.lines_number + 1;
        proof {
            assert(self.lines() =~= old(self).lines().insert(
                old(self).current_line + 1,
                Seq::<char>::empty(),
            ));
        }
    }

    /// Remove the cursor's line and move the cursor to the end of the line
    /// above it.  The removed line's text is dropped, not joined upward.
    pub fn delete_line(&mut self)
        requires
            old(self).wf(),
            old(self).current_line > 0,
        ensures
            final(self).lines() == old(self).lines().remove(old(self).current_line as int),
            final(self).current_line == old(self).current_line - 1,
            final(self).current_column == final(self).cur_line().len(),
            final(self).lines_number == old(self).lines_number - 1,
            final(self).scroll_y == old(self).scroll_y,
            final(self).wf(),
    {
        let current_line = self.current_line as usize;
        self.file.remove(current_line);
        self.current_line = self.current_line - 1;
        self.lines_number = self.lines_number - 1;
        proof {
            assert(self.lines() =~= old(self).lines().remove(old(self).current_line as int));
        }
        self.current_column = self.get_line_len();
    }

    /// Insert one character at the cursor's column and step the cursor right.
    pub fn insert_char(&mut self, input: char)
        requires
            old(self).wf(),
            old(self).current_column <= old(self).cur_line().len(),
            old(self).cur_line().len() < u16::MAX,
        ensures
            final(self).lines() == old(self).lines().update(
                old(self).current_line as int,
                old(self).cur_line().insert(old(self).current_column as int, input),
            ),
            final(self).current_line == old(self).current_line,
            final(self).current_column == old(self).current_column + 1,
            final(self).lines_number == old(self).lines_number,
            final(self).scroll_y == old(self).scroll_y,
            final(self).wf(),
    {
        let current_column = self.current_column as usize;
        let buffer = self.get_mut();
        buffer.insert(current_column, input);
        self.current_column = self.current_column + 1;
    }

    /// Delete the character left of the cursor; at the start of a line,
    /// delete the whole line instead.  At the document's very start this
    /// does nothing.
    pub fn delete_previous_position(&mut self)
        requires
            old(self).wf(),
            old(self).current_column > 0 ==> old(self).current_column <= old(
                self,
            ).cur_line().len(),
        ensures
            old(self).current_column > 0 ==> {
                &&& final(self).lines() == old(self).lines().update(
                    old(self).current_line as int,
                    old(self).cur_line().remove(old(self).current_column - 1),
                )
                &&& final(self).current_line == old(self).current_line
                &&& final(self).current_column == old(self).current_column - 1
                &&& final(self).lines_number == old(self).lines_number
            },
            old(self).current_column == 0 && old(self).current_line > 0 ==> {
                &&& final(self).lines() == old(self).lines().remove(old(self).current_line as int)
                &&& final(self).current_line == old(self).current_line - 1
                &&& final(self).current_column == final(self).cur_line().len()
                &&& final(self).lines_number == old(self).lines_number - 1
            },
            old(self).current_column == 0 && old(self).current_line == 0 ==> *final(self) == *old(
                self,
            ),
            final(self).scroll_y == old(self).scroll_y,
            final(self).wf(),
    {
        if self.current_column > 0 {
            let current_column = self.current_column as usize - 1;
            let buffer = self.get_mut();
            buffer.remove(current_column);
            self.current_column = self.current_column - 1;
        } else if self.current_line > 0 {
            self.delete_line();
        }
    }

    /// Move the cursor to the first space after the next run of non-space
    /// characters, or to the end of the line if no such space follows.
    /// Never crosses a line boundary.
    pub fn move_to_next_word(&mut self)
        requires
            old(self).wf(),
        ensures
            final(self).current_column == next_word_stop(
                old(self).cur_line(),
                old(self).current_column as int,
                false,
            ),
            final(self).lines() == old(self).lines(),
            final(self).current_line == old(self).current_line,
            final(self).lines_number == old(self).lines_number,
            final(self).scroll_y == old(self).scroll_y,
            final(self).wf(),
    {
        let columns_number = self.get_line_len();
        let mut index = self.current_column;
        let mut is_parsing_word = false;
        while index < columns_number
            invariant
                self.wf(),
                *self == *old(self),
                columns_number == self.cur_line().len(),
                next_word_stop(self.cur_line(), self.current_column as int, false)
                    == next_word_stop(self.cur_line(), index as int, is_parsing_word),
            decreases columns_number - index,
        {
            let line: &Vec<char> = &self.file[self.current_line as usize];
            let c = line[index as usize];
            if is_parsing_word && c == ' ' {
                self.current_column = index;
                return ;
            }
            if c != ' ' {
                is_parsing_word = true;
            }
            index = index + 1;
        }
        self.current_column = index;
    }

    /// Move the cursor backward to the first space before the previous run
    /// of non-space characters, stopping at the start of the line.  From
    /// column zero, or from a column past the line's end, this does nothing.
    pub fn move_to_previous_word(&mut self)
        requires
            old(self).wf(),
        ensures
            old(self).current_column >= 1 && old(self).current_column - 1
                < old(self).cur_line().len() ==> final(self).current_column == prev_word_stop(
                old(self).cur_line(),
                old(self).current_column - 1,
                false,
            ),
            old(self).current_column == 1 ==> final(self).current_column == 0,
            old(self).current_column == 0 || (old(self).current_column >= 2 && old(
                self,
            ).current_column - 1 >= old(self).cur_line().len()) ==> final(self).current_column
                == old(self).current_column,
            final(self).lines() == old(self).lines(),
            final(self).current_line == old(self).current_line,
            final(self).lines_number == old(self).lines_number,
            final(self).scroll_y == old(self).scroll_y,
            final(self).wf(),
    {
        if self.current_column < 1 {
            return ;
        }
        let columns_number = self.get_line_len();
        let mut index = self.current_column - 1;
        if index > 0 && index >= columns_number {
            // The scan's first lookup would fall past the line's end: the
            // cursor stays where it is.
            return ;
        }
        let mut is_parsing_word = false;
        while index > 0
            invariant
                self.wf(),
                *self == *old(self),
                columns_number == self.cur_line().len(),
                index > 0 ==> index < self.cur_line().len(),
                old(self).current_column == 1 || old(self).current_column - 1
                    < self.cur_line().len(),
                prev_word_stop(self.cur_line(), old(self).current_column - 1, false)
                    == prev_word_stop(self.cur_line(), index as int, is_parsing_word),
            decreases index,
        {
            let line: &Vec<char> = &self.file[self.current_line as usize];
            let c = line[index as usize];
            if is_parsing_word && c == ' ' {
                self.current_column = index;
                return ;
            }
            if c != ' ' {
                is_parsing_word = true;
            }
            index = index - 1;
        }
        self.current_column = index;
    }
}

impl Clone for FileBuffer {
    /// An exact copy: same lines, same cursor, same counts.
    fn clone(&self) -> (res: Self)
        ensures
            res.lines() == self.lines(),
            res.current_line == self.current_line,
            res.current_column == self.current_column,
            res.lines_number == self.lines_number,
            res.scroll_y == self.scroll_y,
    {
        let mut file: Vec<Vec<char>> = Vec::new();
        let mut i: usize = 0;
        while i < self.file.len()
            invariant
                i <= self.file@.len(),
                file@.len() == i,
                forall|j: int| 0 <= j < i ==> (#[trigger] file@[j])@ == self.file@[j]@,
            decreases self.file@.len() - i,
        {
            file.push(vstd::slice::slice_to_vec(self.file[i].as_slice()));
            i = i + 1;
        }
        let res = FileBuffer {
            file,
            current_line: self.current_line,
            current_column: self.current_column,
            lines_number: self.lines_number,
            scroll_y: self.scroll_y,
        };
        proof {
            assert(res.lines() =~= self.lines());
        }
        res
    }
}

/// A cursor position in screen coordinates.
pub struct CursorPosition {
    pub x: u16,
    pub y: u16,
}

impl FileBuffer {
    /// The cursor translated to screen coordinates: the column shifted right
    /// past the line-number gutter, the line taken as the row.
    pub fn to_cursor_position(&self) -> (pos: CursorPosition)
        requires
            self.current_column + crate::ui::LINE_NUMBERS_WIDTH <= u16::MAX,
        ensures
            pos.x == self.current_column + crate::ui::LINE_NUMBERS_WIDTH,
            pos.y == self.current_line,
    {
        CursorPosition { x: self.current_column + crate::ui::LINE_NUMBERS_WIDTH, y: self.current_line }
    }
}

/// For a cursor on an interior column of its line, one step right and then
/// one step left land back on the starting column.
pub proof fn lemma_move_right_then_left(b: FileBuffer)
    requires
        b.wf(),
        b.current_column < b.cur_line().len(),
    ensures
        b.move_cursor_spec(Move::Right).move_cursor_spec(Move::Left).current_column
            == b.current_column,
{
}

/// A downward move never reaches the line count, and an upward move never
/// leaves the document: every motion keeps the cursor's line in bounds.
pub proof fn lemma_move_cursor_in_bounds(b: FileBuffer, m: Move)
    requires
        b.wf(),
    ensures
        b.move_cursor_spec(Move::Down).current_line < b.lines_number,
        b.move_cursor_spec(Move::Up).current_line >= 0,
        b.move_cursor_spec(m).wf(),
{
}

/// In a well-formed buffer the recorded line count is the true number of
/// lines.  Every editing operation ensures well-formedness back, so the
/// count stays exact through any sequence of line creations and deletions.
pub proof fn lemma_line_count_exact(b: FileBuffer)
    requires
        b.wf(),
    ensures
        b.lines_number == b.lines().len(),
{
}

/// The column where a forward word scan from column `i` halts on `line`:
/// the first space after a non-space has been seen, or the line's end.
/// A start at or past the end stays where it is.
pub open spec fn next_word_stop(line: Seq<char>, i: int, parsing: bool) -> int
    decreases line.len() - i,
{
    if i >= line.len() {
        i
    } else if parsing && line[i] == ' ' {
        i
    } else {
        next_word_stop(line, i + 1, parsing || line[i] != ' ')
    }
}

/// The column where a backward word scan from column `i` halts on `line`:
/// the first space after a non-space has been seen, or column zero.
pub open spec fn prev_word_stop(line: Seq<char>, i: int, parsing: bool) -> int
    decreases i,
{
    if i <= 0 {
        0
    } else if parsing && line[i] == ' ' {
        i
    } else {
        prev_word_stop(line, i - 1, parsing || line[i] != ' ')
    }
}

/// The character sequences behind a sequence of character vectors.
pub open spec fn views_of(s: Seq<Vec<char>>) -> Seq<Seq<char>> {
    Seq::new(s.len(), |i: int| s[i]@)
}

/// The index of the first newline in `s`, or `s.len()` if there is none.
pub open spec fn first_nl(s: Seq<char>) -> int
    decreases s.len(),
{
    if s.len() == 0 {
        0
    } else if s[0] == '\n' {
        0
    } else {
        1 + first_nl(s.drop_first())
    }
}

proof fn lemma_first_nl(s: Seq<char>)
    ensures
        0 <= first_nl(s) <= s.len(),
        first_nl(s) < s.len() ==> s[first_nl(s)] == '\n',
        forall|k: int| 0 <= k < first_nl(s) ==> s[k] != '\n',
    decreases s.len(),
{
    if s.len() == 0 {
    } else if s[0] == '\n' {
    } else {
        lemma_first_nl(s.drop_first());
        assert forall|k: int| 0 <= k < first_nl(s) implies s[k] != '\n' by {
            if k >= 1 {
                assert(s.drop_first()[k - 1] != '\n');
            }
        }
    }
}

/// A piece of text with one trailing carriage return removed, if present.
pub open spec fn strip_cr(p: Seq<char>) -> Seq<char> {
    if p.len() > 0 && p[p.len() - 1] == '\r' {
        p.drop_last()
    } else {
        p
    }
}

/// Text split into lines: a newline ends each line and is dropped, together
/// with a carriage return just before it.  A final line ending produces no
/// extra empty line, and empty text has no lines at all.
pub open spec fn split_lines(s: Seq<char>) -> Seq<Seq<char>>
    decreases s.len(),
{
    if s.len() == 0 {
        Seq::empty()
    } else {
        let j = first_nl(s);
        if 0 <= j < s.len() {
            seq![strip_cr(s.subrange(0, j))] + split_lines(s.subrange(j + 1, s.len() as int))
        } else {
            seq![s]
        }
    }
}

/// The lines a buffer starts with: the split of the text that was read, or a
/// single empty line when nothing was read or the text had no lines.
pub open spec fn initial_lines(content: Option<Vec<char>>) -> Seq<Seq<char>> {
    match content {
        Option::Some(c) => if split_lines(c@).len() == 0 {
            seq![Seq::<char>::empty()]
        } else {
            split_lines(c@)
        },
        Option::None => seq![Seq::<char>::empty()],
    }
}

/// Whether text read for a buffer fits the machine limits of the document
/// model: at most as many lines, and as many characters on each line, as a
/// sixteen-bit count can hold.
pub open spec fn valid_content(content: Option<Vec<char>>) -> bool {
    &&& initial_lines(content).len() <= u16::MAX
    &&& forall|i: int|
        0 <= i < initial_lines(content).len() ==> (#[trigger] initial_lines(content)[i]).len()
            <= u16::MAX
    &&& content matches Option::Some(c) ==> c@.len() < usize::MAX
}

/// Whether `fb` is exactly a buffer freshly opened over `content`: that
/// text's lines, the cursor at the origin, and an exact line count.
pub open spec fn fresh_buffer(fb: FileBuffer, content: Option<Vec<char>>) -> bool {
    &&& fb.lines() == initial_lines(content)
    &&& fb.current_line == 0
    &&& fb.current_column == 0
    &&& fb.scroll_y == 0
    &&& fb.lines_number == initial_lines(content).len()
}

/// Split a vector of characters into its lines, as `split_lines` describes.
fn split_into_lines(content: &Vec<char>) -> (lines: Vec<Vec<char>>)
    requires
        content@.len() < usize::MAX,
    ensures
        views_of(lines@) == split_lines(content@),
{
    let n = content.len();
    let mut lines: Vec<Vec<char>> = Vec::new();
    let mut i: usize = 0;
    proof {
        assert(content@.subrange(0, n as int) =~= content@);
    }
    while i < n
        invariant
            n == content@.len(),
            n < usize::MAX,
            i <= n + 1,
            split_lines(content@) =~= views_of(lines@) + if i <= n {
                split_lines(content@.subrange(i as int, n as int))
            } else {
                Seq::<Seq<char>>::empty()
            },
        decreases n + 1 - i,
    {
        let mut j = i;
        while j < n && content[j] != '\n'
            invariant
                n == content@.len(),
                i <= j <= n,
                forall|k: int| i <= k < j ==> content@[k] != '\n',
            decreases n - j,
        {
            j = j + 1;
        }
        let mut end = j;
        if j < n && end > i && content[end - 1] == '\r' {
            end = end - 1;
        }
        let mut piece: Vec<char> = Vec::new();
        let mut k = i;
        while k < end
            invariant
                n == content@.len(),
                i <= k <= end <= n,
                piece@ =~= content@.subrange(i as int, k as int),
            decreases end - k,
        {
            piece.push(content[k]);
            k = k + 1;
        }
        proof {
            let s = content@.subrange(i as int, n as int);
            lemma_first_nl(s);
            let f = first_nl(s);
            assert forall|m: int| 0 <= m < j - i implies s[m] != '\n' by {
                assert(content@[i + m] != '\n');
            }
            if f < j - i {
                assert(s[f] == '\n');
                assert(content@[i + f] == '\n');
                assert(false);
            }
            if f > j - i {
                assert(j < n);
                assert(s[j - i] == '\n');
                assert(false);
            }
            assert(f == j - i);
            if j < n {
                assert(s.subrange(0, f) =~= content@.subrange(i as int, j as int));
                assert(strip_cr(content@.subrange(i as int, j as int)) =~= content@.subrange(
                    i as int,
                    end as int,
                ));
                assert(piece@ =~= strip_cr(s.subrange(0, f)));
                assert(s.subrange(f + 1, s.len() as int) =~= content@.subrange(
                    j + 1,
                    n as int,
                ));
                assert(split_lines(s) == seq![piece@] + split_lines(
                    content@.subrange(j + 1, n as int),
                ));
            } else {
                assert(piece@ =~= s);
                assert(split_lines(s) == seq![piece@]);
            }
        }
        lines.push(piece);
        proof {
            assert(views_of(lines@) =~= views_of(lines@.drop_last()) + seq![piece@]);
        }
        i = j + 1;
    }
    proof {
        if i == n {
            assert(content@.subrange(n as int, n as int) =~= Seq::<char>::empty());
            assert(split_lines(content@.subrange(n as int, n as int)) =~= Seq::<Seq<char>>::empty());
        }
        assert(views_of(lines@) =~= split_lines(content@));
    }
    lines
}

/// All open documents, keyed by the canonical path each was opened from.
/// The empty key holds the unnamed scratch buffer.
#[derive(Debug)]
pub struct FilesBuffers {
    pub files: Vec<(String, FileBuffer)>,
}

impl FilesBuffers {
    /// The keys of the store, in storage order.
    pub open spec fn keys(self) -> Seq<Seq<char>> {
        Seq::new(self.files@.len(), |i: int| self.files@[i].0@)
    }

    /// Well-formedness: no key occurs twice, and every stored buffer is
    /// well-formed.
    pub open spec fn wf(self) -> bool {
        &&& forall|i: int, j: int|
            0 <= i < j < self.keys().len() ==> self.keys()[i] != self.keys()[j]
        &&& forall|i: int| 0 <= i < self.files@.len() ==> (#[trigger] self.files@[i]).1.wf()
    }

    /// Whether some buffer is stored under key `k`.
    pub open spec fn contains_key(self, k: Seq<char>) -> bool {
        exists|i: int| 0 <= i < self.files@.len() && self.files@[i].0@ == k
    }

    /// The storage index of key `k`, when it is present.
    pub open spec fn key_index(self, k: Seq<char>) -> int {
        choose|i: int| 0 <= i < self.files@.len() && self.files@[i].0@ == k
    }

    /// The buffer stored under key `k`, when it is present.
    pub open spec fn spec_get(self, k: Seq<char>) -> FileBuffer {
        self.files@[self.key_index(k)].1
    }

    /// An empty store.
    pub fn new() -> (s: Self)
        ensures
            s.files@.len() == 0,
            s.wf(),
    {
        FilesBuffers { files: Vec::new() }
    }

    /// Whether the store holds no buffer at all.
    pub fn is_empty(&self) -> (r: bool)
        ensures
            r <==> self.files@.len() == 0,
    {
        self.files.is_empty()
    }

    /// Open a buffer for `file_path` over the text that was read for it
    /// (`None` when no text could be read), replacing any buffer already
    /// stored under that path.  The new buffer starts with its cursor at the
    /// origin and holds at least one line.
    pub fn init_file_buffer(&mut self, file_path: String, content: Option<Vec<char>>)
        requires
            old(self).wf(),
            valid_content(content),
        ensures
            final(self).wf(),
            final(self).contains_key(file_path@),
            fresh_buffer(final(self).spec_get(file_path@), content),
            forall|k: Seq<char>|
                k != file_path@ ==> (final(self).contains_key(k) <==> old(self).contains_key(k)),
            forall|k: Seq<char>|
                k != file_path@ && old(self).contains_key(k) ==> final(self).spec_get(k) == old(
                    self,
                ).spec_get(k),
            old(self).contains_key(file_path@) ==> final(self).files@.len() == old(
                self,
            ).files@.len(),
            !old(self).contains_key(file_path@) ==> final(self).files@.len() == old(
                self,
            ).files@.len() + 1,
    {
        let mut buffer: Vec<Vec<char>> = match content {
            Option::Some(c) => split_into_lines(&c),
            Option::None => Vec::new(),
        };
        if buffer.is_empty() {
            buffer.push(Vec::new());
        }
        let lines_number = buffer.len() as u16;
        let fb = FileBuffer {
            file: buffer,
            current_line: 0,
            current_column: 0,
            lines_number,
            scroll_y: 0,
        };
        proof {
            assert(fb.lines() =~= initial_lines(content));
        }
        self.store_insert(file_path, fb);
    }

    /// Store `value` under `key`, replacing the entry already there if the
    /// key is present and appending a new entry otherwise.
    #[verifier::loop_isolation(false)]
    fn store_insert(&mut self, key: String, value: FileBuffer)
        requires
            old(self).wf(),
            value.wf(),
        ensures
            final(self).wf(),
            final(self).contains_key(key@),
            final(self).spec_get(key@) == value,
            forall|k: Seq<char>|
                k != key@ ==> (final(self).contains_key(k) <==> old(self).contains_key(k)),
            forall|k: Seq<char>|
                k != key@ && old(self).contains_key(k) ==> final(self).spec_get(k) == old(
                    self,
                ).spec_get(k),
            old(self).contains_key(key@) ==> final(self).files@.len() == old(self).files@.len(),
            !old(self).contains_key(key@) ==> final(self).files@.len() == old(self).files@.len()
                + 1,
    {
        let n = self.files.len();
        let mut i: usize = 0;
        while i < n
            invariant
                *self == *old(self),
                n == self.files@.len(),
                i <= n,
                forall|j: int| 0 <= j < i ==> self.files@[j].0@ != key@,
            decreases n - i,
        {
            if self.files[i].0 == key {
                let slot = &mut self.files[i];
                *slot = (key, value);
                proof {
                    assert(self.keys() =~= old(self).keys());
                    lemma_assoc_lookup(*self, key@, i as int);
                    assert forall|k: Seq<char>|
                        k != key@ implies (self.contains_key(k) <==> old(self).contains_key(
                        k,
                    )) by {
                        if old(self).contains_key(k) {
                            let j = old(self).key_index(k);
                            assert(self.files@[j].0@ == k);
                        }
                        if self.contains_key(k) {
                            let j = self.key_index(k);
                            assert(old(self).files@[j].0@ == k);
                        }
                    }
                    assert forall|k: Seq<char>|
                        k != key@ && old(self).contains_key(k) implies self.spec_get(k) == old(
                        self,
                    ).spec_get(k) by {
                        let j = old(self).key_index(k);
                        lemma_assoc_lookup(*old(self), k, j);
                        lemma_assoc_lookup(*self, k, j);
                    }
                }
                return ;
            }
            i = i + 1;
        }
        self.files.push((key, value));
        proof {
            assert forall|p: int, q: int|
                0 <= p < q < self.keys().len() implies self.keys()[p] != self.keys()[q] by {
                if q == n {
                    assert(self.keys()[p] == old(self).keys()[p]);
                    assert(old(self).files@[p].0@ != key@);
                } else {
                    assert(self.keys()[p] == old(self).keys()[p]);
                    assert(self.keys()[q] == old(self).keys()[q]);
                }
            }
            lemma_assoc_lookup(*self, key@, n as int);
            assert forall|k: Seq<char>|
                k != key@ implies (self.contains_key(k) <==> old(self).contains_key(k)) by {
                if old(self).contains_key(k) {
                    let j = old(self).key_index(k);
                    assert(self.files@[j].0@ == k);
                }
                if self.contains_key(k) {
                    let j = self.key_index(k);
                    assert(j < n);
                    assert(old(self).files@[j].0@ == k);
                }
            }
            assert forall|k: Seq<char>|
                k != key@ && old(self).contains_key(k) implies self.spec_get(k) == old(
                self,
            ).spec_get(k) by {
                let j = old(self).key_index(k);
                lemma_assoc_lookup(*old(self), k, j);
                lemma_assoc_lookup(*self, k, j);
            }
        }
    }

    /// A copy of the buffer stored under `key`.  Looking up an absent key is
    /// a caller error and is ruled out by contract.
    #[verifier::loop_isolation(false)]
    pub fn get(&self, key: String) -> (r: FileBuffer)
        requires
            self.wf(),
            self.contains_key(key@),
        ensures
            r.lines() == self.spec_get(key@).lines(),
            r.current_line == self.spec_get(key@).current_line,
            r.current_column == self.spec_get(key@).current_column,
            r.lines_number == self.spec_get(key@).lines_number,
            r.scroll_y == self.spec_get(key@).scroll_y,
    {
        let n = self.files.len();
        let mut i: usize = 0;
        while i < n
            invariant
                self.wf(),
                self.contains_key(key@),
                n == self.files@.len(),
                i <= n,
                forall|j: int| 0 <= j < i ==> self.files@[j].0@ != key@,
            decreases n - i,
        {
            if self.files[i].0 == key {
                proof {
                    lemma_assoc_lookup(*self, key@, i as int);
                }
                return self.files[i].1.clone();
            }
            i = i + 1;
        }
        proof {
            assert(false);
        }
        vstd::pervasive::unreached()
    }

    /// Exclusive access to the buffer stored under `key`.  Looking up an
    /// absent key is a caller error and is ruled out by contract.
    #[verifier::loop_isolation(false)]
    pub fn get_mut(&mut self, key: String) -> (r: &mut FileBuffer)
        requires
            old(self).wf(),
            old(self).contains_key(key@),
        ensures
            *r == old(self).spec_get(key@),
            final(self).files@ == old(self).files@.update(
                old(self).key_index(key@),
                (old(self).files@[old(self).key_index(key@)].0, *final(r)),
            ),
    {
        let n = self.files.len();
        let mut i: usize = 0;
        while i < n
            invariant
                *self == *old(self),
                n == self.files@.len(),
                i <= n,
                forall|j: int| 0 <= j < i ==> self.files@[j].0@ != key@,
            decreases n - i,
        {
            if self.files[i].0 == key {
                proof {
                    lemma_assoc_lookup(*self, key@, i as int);
                }
                return &mut self.files[i].1;
            }
            i = i + 1;
        }
        proof {
            assert(false);
        }
        vstd::pervasive::unreached()
    }
}

/// What replacing one stored buffer does to the store as a whole: the key
/// still resolves, now to the new buffer; every other key is untouched; and
/// the store stays well-formed when the new buffer is.  This is the shape in
/// which `get_mut` hands the store back.
pub proof fn lemma_store_updated(pre: FilesBuffers, post: FilesBuffers, k: Seq<char>, fb: FileBuffer)
    requires
        pre.wf(),
        pre.contains_key(k),
        post.files@ == pre.files@.update(
            pre.key_index(k),
            (pre.files@[pre.key_index(k)].0, fb),
        ),
    ensures
        post.contains_key(k),
        post.spec_get(k) == fb,
        post.files@.len() == pre.files@.len(),
        forall|k2: Seq<char>| k2 != k ==> (post.contains_key(k2) <==> pre.contains_key(k2)),
        forall|k2: Seq<char>|
            k2 != k && pre.contains_key(k2) ==> post.spec_get(k2) == pre.spec_get(k2),
        fb.wf() ==> post.wf(),
{
    let i = pre.key_index(k);
    assert(pre.files@[i].0@ == k);
    assert(post.keys() =~= pre.keys());
    lemma_assoc_lookup(post, k, i);
    assert forall|k2: Seq<char>|
        k2 != k implies (post.contains_key(k2) <==> pre.contains_key(k2)) by {
        if pre.contains_key(k2) {
            let j = pre.key_index(k2);
            assert(post.files@[j].0@ == k2);
        }
        if post.contains_key(k2) {
            let j = post.key_index(k2);
            assert(pre.files@[j].0@ == k2);
        }
    }
    assert forall|k2: Seq<char>|
        k2 != k && pre.contains_key(k2) implies post.spec_get(k2) == pre.spec_get(k2) by {
        let j = pre.key_index(k2);
        lemma_assoc_lookup(pre, k2, j);
        lemma_assoc_lookup(post, k2, j);
    }
}

/// In a store with distinct keys, an index whose entry carries key `k` is
/// the index the lookup functions use.
proof fn lemma_assoc_lookup(s: FilesBuffers, k: Seq<char>, i: int)
    requires
        forall|p: int, q: int| 0 <= p < q < s.keys().len() ==> s.keys()[p] != s.keys()[q],
        0 <= i < s.files@.len(),
        s.files@[i].0@ == k,
    ensures
        s.contains_key(k),
        s.key_index(k) == i,
{
    assert(s.keys()[i] == k);
    let ki = s.key_index(k);
    if ki != i {
        assert(s.keys()[ki] == k);
    }
}

} // verus!
