//! The plaintext pattern format: a name line, comment lines with an
//! optional padding directive, and body rows of `O` and `.`.

use vstd::prelude::*;
use vstd::string::{StrSliceExecFns, StringExecFns};
use crate::grid::{Board, Cell, Grid};
use crate::text::{
    chars_of, has_prefix, lemma_split_ranges, lemma_trim_range, parse_unsigned, ranges_view,
    split, split_bounds, split_ranges, starts_with, trim, trim_bounds, trim_range, unsigned_of,
    whitespace_flags, whitespace_of,
};
use crate::torus::{lemma_position_of_index, lemma_row_major};

verus! {

/// An error of a read from a file or stream. Nothing is known of it.
#[verifier::external_type_specification]
#[verifier::external_body]
pub struct ExIoError(std::io::Error);

/// Why a pattern could not be read.
#[derive(Debug)]
pub enum Error {
    /// The underlying read failed.
    Io(std::io::Error),
    /// The first line does not begin with `!Name:`.
    NameLineMissing,
    /// A body row is not as wide as the first one.
    Invalid,
}

impl From<std::io::Error> for Error {
    fn from(error: std::io::Error) -> (result: Error) {
        Error::Io(error)
    }
}

impl vstd::std_specs::convert::FromSpecImpl<std::io::Error> for Error {
    open spec fn obeys_from_spec() -> bool {
        true
    }

    open spec fn from_spec(error: std::io::Error) -> Error {
        Error::Io(error)
    }
}

/// The text that `Display` of std gives for an error of a read. Nothing is
/// claimed of the text: for an error of the operating system it is in the
/// language of the machine.
#[verifier::external_body]
fn io_error_text(error: &std::io::Error) -> (text: String) {
    format!("{}", error)
}

/// The words for a failed read, given what the error itself has to say.
pub fn io_failure_message(text: &str) -> (message: String)
    ensures
        message@ == "I/O Error: "@ + text@,
{
    "I/O Error: ".to_owned().concat(text)
}

impl Error {
    /// The error in words. For a failed read these are `I/O Error: ` and
    /// what the error itself has to say.
    pub fn message(&self) -> (message: String)
        ensures
            *self is Io ==> starts_with(message@, "I/O Error: "@),
            *self is NameLineMissing ==> message@ == "Name line missing"@,
            *self is Invalid ==> message@ == "Body contained invalid data"@,
    {
        match self {
            Error::Io(error) => {
                let text: String = io_error_text(error);
                let message: String = io_failure_message(text.as_str());
                assert(message@.subrange(0, "I/O Error: "@.len() as int) =~= "I/O Error: "@);
                message
            },
            Error::NameLineMissing => "Name line missing".to_owned(),
            Error::Invalid => "Body contained invalid data".to_owned(),
        }
    }
}

/// The margins of dead cells around the body of a pattern.
#[derive(Clone, Copy, Debug, PartialEq, Eq, Structural)]
pub struct Padding {
    pub top: usize,
    pub right: usize,
    pub bottom: usize,
    pub left: usize,
}

/// The number in field `k` of a comma-separated list, if the field holds
/// one, with whitespace allowed around it.
pub open spec fn field_value(text: Seq<char>, k: int) -> Option<usize> {
    unsigned_of(trim(split(text, ',')[k]))
}

/// The margins that a list of one to four numbers stands for, in the order
/// top, right, bottom, left. A missing bottom is the top, a missing right
/// is the top, and a missing left is the right. Any other text stands for
/// no margins at all.
pub open spec fn padding_of(text: Seq<char>) -> Option<Padding> {
    let count = split(text, ',').len();
    if count > 4 || exists|k: int| 0 <= k < count && field_value(text, k) is None {
        None
    } else {
        let top = field_value(text, 0)->Some_0;
        let right = if count >= 2 {
            field_value(text, 1)->Some_0
        } else {
            top
        };
        let bottom = if count >= 3 {
            field_value(text, 2)->Some_0
        } else {
            top
        };
        let left = if count >= 4 {
            field_value(text, 3)->Some_0
        } else {
            right
        };
        Some(Padding { top, right, bottom, left })
    }
}

/// The number in field `k` of the comma-separated list `text[from..to]`,
/// where the flags say which positions of `text` hold whitespace.
pub open spec fn field_value_by(text: Seq<char>, white: Seq<bool>, from: int, to: int, k: int)
    -> Option<usize> {
    let field = split_ranges(text, ',', from, to)[k];
    let kept = trim_range(white, field.0, field.1);
    unsigned_of(text.subrange(kept.0, kept.1))
}

/// The margins that the list `text[from..to]` stands for, as `padding_of`
/// gives them, where the flags say which positions of `text` hold
/// whitespace.
pub open spec fn padding_by(text: Seq<char>, white: Seq<bool>, from: int, to: int) -> Option<
    Padding,
> {
    let count = split_ranges(text, ',', from, to).len();
    if count > 4 || exists|k: int|
        0 <= k < count && field_value_by(text, white, from, to, k) is None {
        None
    } else {
        let top = field_value_by(text, white, from, to, 0)->Some_0;
        let right = if count >= 2 {
            field_value_by(text, white, from, to, 1)->Some_0
        } else {
            top
        };
        let bottom = if count >= 3 {
            field_value_by(text, white, from, to, 2)->Some_0
        } else {
            top
        };
        let left = if count >= 4 {
            field_value_by(text, white, from, to, 3)->Some_0
        } else {
            right
        };
        Some(Padding { top, right, bottom, left })
    }
}

/// With the flags that the text itself gives, the margins read by the flags
/// are the margins of the list.
pub proof fn lemma_padding_by_own_flags(text: Seq<char>, from: int, to: int)
    requires
        0 <= from <= to <= text.len(),
    ensures
        padding_by(text, whitespace_of(text), from, to) == padding_of(text.subrange(from, to)),
{
    let white = whitespace_of(text);
    let list = text.subrange(from, to);
    lemma_split_ranges(text, ',', from, to);
    assert forall|k: int| 0 <= k < split(list, ',').len() implies field_value_by(
        text,
        white,
        from,
        to,
        k,
    ) == field_value(list, k) by {
        let field = split_ranges(text, ',', from, to)[k];
        lemma_trim_range(text, field.0, field.1);
    }
}

impl Padding {
    /// No margin on any side.
    pub open spec fn zero() -> Padding {
        Padding { top: 0, right: 0, bottom: 0, left: 0 }
    }

    /// No margin on any side.
    pub fn none() -> (padding: Padding)
        ensures
            padding == Padding::zero(),
    {
        Padding { top: 0, right: 0, bottom: 0, left: 0 }
    }

    /// Reads `chars[from..to]` as a list of margins. The flags say which
    /// characters count as whitespace.
    pub fn from_chars(chars: &Vec<char>, white: &Vec<bool>, from: usize, to: usize) -> (padding:
        Option<Padding>)
        requires
            from <= to <= chars@.len(),
            white@.len() == chars@.len(),
        ensures
            padding == padding_by(chars@, white@, from as int, to as int),
    {
        let fields: Vec<(usize, usize)> = split_bounds(chars, from, to, ',');
        let ghost ranges = split_ranges(chars@, ',', from as int, to as int);
        proof {
            lemma_split_ranges(chars@, ',', from as int, to as int);
        }
        if fields.len() > 4 {
            return None;
        }
        let mut values: Vec<usize> = Vec::new();
        let mut k: usize = 0;
        while k < fields.len()
            invariant
                k <= fields@.len(),
                ranges == split_ranges(chars@, ',', from as int, to as int),
                ranges_view(fields@) == ranges,
                forall|j: int|
                    0 <= j < ranges.len() ==> from <= (#[trigger] ranges[j]).0 <= ranges[j].1 <= to,
                to <= chars@.len(),
                white@.len() == chars@.len(),
                values@.len() == k,
                forall|j: int|
                    0 <= j < k ==> field_value_by(chars@, white@, from as int, to as int, j)
                        == Some(#[trigger] values@[j]),
            decreases fields@.len() - k,
        {
            let (start, end): (usize, usize) = fields[k];
            let (first, last): (usize, usize) = trim_bounds(white, start, end);
            match parse_unsigned(chars, first, last) {
                Some(value) => {
                    values.push(value);
                },
                None => {
                    assert(field_value_by(chars@, white@, from as int, to as int, k as int)
                        is None);
                    return None;
                },
            }
            k += 1;
        }
        let count: usize = values.len();
        let top: usize = values[0];
        let right: usize = if count >= 2 {
            values[1]
        } else {
            top
        };
        let bottom: usize = if count >= 3 {
            values[2]
        } else {
            top
        };
        let left: usize = if count >= 4 {
            values[3]
        } else {
            right
        };
        Some(Padding { top, right, bottom, left })
    }

    /// Reads a list of margins as style sheets write them:
    /// `top[,right][,bottom][,left]`.
    pub fn from_str(text: &str) -> (padding: Result<Padding, ()>)
        ensures
            padding == match padding_of(text@) {
                Some(p) => Ok::<Padding, ()>(p),
                None => Err::<Padding, ()>(()),
            },
    {
        let chars: Vec<char> = chars_of(text);
        let white: Vec<bool> = whitespace_flags(&chars);
        proof {
            lemma_padding_by_own_flags(text@, 0, text@.len() as int);
            assert(text@.subrange(0, text@.len() as int) =~= text@);
        }
        match Padding::from_chars(&chars, &white, 0, chars.len()) {
            Some(p) => Ok(p),
            None => Err(()),
        }
    }
}

/// The cell at `(x, y)` of the rows once the margins are put around them:
/// the cell of the body that lies there, or a dead cell in a margin.
pub open spec fn padded_cell(rows: Seq<Seq<Cell>>, width: nat, padding: Padding, x: int, y: int)
    -> Cell {
    if padding.top <= y < padding.top + rows.len() && padding.left <= x < padding.left + width {
        rows[y - padding.top][x - padding.left]
    } else {
        Cell::Dead
    }
}

/// The board that holds the rows, each `width` cells wide, with the
/// margins of dead cells around them.
pub open spec fn padded(rows: Seq<Seq<Cell>>, width: nat, padding: Padding) -> Board {
    let full_width = width + padding.left + padding.right;
    let full_height = rows.len() + padding.top + padding.bottom;
    Board {
        width: full_width as nat,
        height: full_height as nat,
        cells: Seq::new(
            (full_width * full_height) as nat,
            |i: int| padded_cell(rows, width, padding, i % full_width, i / full_width),
        ),
    }
}

/// The padded board holds the body at the offset that the left and the top
/// margin give, and dead cells everywhere else.
pub proof fn lemma_padded_board(
    rows: Seq<Seq<Cell>>,
    width: nat,
    padding: Padding,
    x: int,
    y: int,
)
    requires
        padded(rows, width, padding).contains(x, y),
    ensures
        padded(rows, width, padding).wf(),
        padded(rows, width, padding).at(x, y) == padded_cell(rows, width, padding, x, y),
{
    let board = padded(rows, width, padding);
    lemma_row_major(x, y, board.width as int, board.height as int);
}

/// Whether the padded board has dimensions and a cell count that fit the
/// machine word.
pub open spec fn padded_fits(width: nat, height: nat, padding: Padding) -> bool {
    &&& width + padding.left + padding.right <= usize::MAX
    &&& height + padding.top + padding.bottom <= usize::MAX
    &&& (width + padding.left + padding.right) * (height + padding.top + padding.bottom)
        <= usize::MAX
}

/// The rows as sequences of cells.
pub open spec fn rows_view(rows: Seq<Vec<Cell>>) -> Seq<Seq<Cell>> {
    Seq::new(rows.len(), |i: int| rows[i]@)
}

/// Whether the padded board of `height` rows, each `width` cells wide,
/// fits the machine word.
pub fn check_padded_fits(width: usize, height: usize, padding: Padding) -> (fits: bool)
    ensures
        fits == padded_fits(width as nat, height as nat, padding),
{
    let full_width: usize = match width.checked_add(padding.left) {
        Some(sum) => match sum.checked_add(padding.right) {
            Some(full) => full,
            None => { return false; },
        },
        None => { return false; },
    };
    let full_height: usize = match height.checked_add(padding.top) {
        Some(sum) => match sum.checked_add(padding.bottom) {
            Some(full) => full,
            None => { return false; },
        },
        None => { return false; },
    };
    full_width.checked_mul(full_height).is_some()
}

/// Builds the grid that holds the rows with the margins around them.
pub fn pad_and_create_grid(rows: Vec<Vec<Cell>>, width: usize, padding: Padding) -> (grid: Grid)
    requires
        forall|i: int| 0 <= i < rows@.len() ==> (#[trigger] rows@[i])@.len() == width,
        padded_fits(width as nat, rows@.len(), padding),
    ensures
        grid@ == padded(rows_view(rows@), width as nat, padding),
        grid@.wf(),
{
    let full_width: usize = width + padding.left + padding.right;
    let full_height: usize = rows.len() + padding.top + padding.bottom;
    let total: usize = full_width * full_height;
    let ghost model = padded(rows_view(rows@), width as nat, padding);
    let mut cells: Vec<Cell> = Vec::with_capacity(total);
    let mut i: usize = 0;
    while i < total
        invariant
            i <= total,
            total == full_width * full_height,
            full_width == width + padding.left + padding.right,
            full_height == rows@.len() + padding.top + padding.bottom,
            forall|j: int| 0 <= j < rows@.len() ==> (#[trigger] rows@[j])@.len() == width,
            cells@.len() == i,
            forall|k: int|
                0 <= k < i ==> cells@[k] == padded_cell(
                    rows_view(rows@),
                    width as nat,
                    padding,
                    k % (full_width as int),
                    k / (full_width as int),
                ),
        decreases total - i,
    {
        proof {
            lemma_position_of_index(i as int, full_width as int, full_height as int);
        }
        let x: usize = i % full_width;
        let y: usize = i / full_width;
        let cell: Cell = if padding.top <= y && y - padding.top < rows.len() && padding.left <= x
            && x - padding.left < width {
            rows[y - padding.top][x - padding.left]
        } else {
            Cell::Dead
        };
        cells.push(cell);
        i += 1;
    }
    assert(cells@ =~= model.cells);
    match Grid::create(full_width, full_height, cells) {
        Ok(grid) => grid,
        Err(_) => vstd::pervasive::unreached(),
    }
}

/// The cells that a body line holds: `O` is a live cell and `.` a dead
/// one, and every other character is passed over.
pub open spec fn cells_of(line: Seq<char>) -> Seq<Cell>
    decreases line.len(),
{
    if line.len() == 0 {
        Seq::<Cell>::empty()
    } else if line.last() == 'O' {
        cells_of(line.drop_last()).push(Cell::Live)
    } else if line.last() == '.' {
        cells_of(line.drop_last()).push(Cell::Dead)
    } else {
        cells_of(line.drop_last())
    }
}

/// Scans a body line for its cells.
pub fn read_cells(chars: &Vec<char>) -> (row: Vec<Cell>)
    ensures
        row@ == cells_of(chars@),
{
    let mut row: Vec<Cell> = Vec::new();
    let mut i: usize = 0;
    while i < chars.len()
        invariant
            i <= chars@.len(),
            row@ == cells_of(chars@.take(i as int)),
        decreases chars@.len() - i,
    {
        assert(chars@.take(i + 1).drop_last() =~= chars@.take(i as int));
        let c: char = chars[i];
        if c == 'O' {
            row.push(Cell::Live);
        } else if c == '.' {
            row.push(Cell::Dead);
        }
        i += 1;
    }
    assert(chars@.take(chars@.len() as int) =~= chars@);
    row
}

/// Which part of a pattern the next line belongs to.
#[derive(Clone, Copy, Debug, PartialEq, Eq, Structural)]
pub enum Phase {
    /// The name line is expected.
    Name,
    /// Comment lines are read until the first line without a `!`.
    Comment,
    /// Every further line is a row of the body.
    Body,
}

/// The mathematical model of a pattern: its name, its comment and its
/// board.
pub struct Pattern {
    pub name: Seq<char>,
    pub comment: Seq<char>,
    pub board: Board,
}

/// The mathematical model of a reader: what the lines read so far have
/// given.
pub struct Draft {
    pub phase: Phase,
    pub name: Seq<char>,
    pub comment: Seq<char>,
    pub rows: Seq<Seq<Cell>>,
    pub width: nat,
    pub padding: Padding,
}

impl Draft {
    /// The reader before the first line.
    pub open spec fn start() -> Draft {
        Draft {
            phase: Phase::Name,
            name: Seq::<char>::empty(),
            comment: Seq::<char>::empty(),
            rows: Seq::<Seq<Cell>>::empty(),
            width: 0,
            padding: Padding::zero(),
        }
    }

    /// Every row read so far is as wide as the first one.
    pub open spec fn wf(self) -> bool {
        forall|i: int| 0 <= i < self.rows.len() ==> (#[trigger] self.rows[i]).len() == self.width
    }

    /// The name line: it begins with `!Name:`, and what follows, trimmed,
    /// is the name. Comment lines come next.
    pub open spec fn read_name(self, line: Seq<char>) -> Result<Draft, Error> {
        if starts_with(line, "!Name:"@) {
            Ok(Draft { phase: Phase::Comment, name: self.name + trim(line.skip(6)), ..self })
        } else {
            Err(Error::NameLineMissing)
        }
    }

    /// A line that begins with `!`, read before the body. After `!Padding:`
    /// comes a list of margins, which takes the place of earlier margins if
    /// it can be read and is passed over if not. What follows the `!` of
    /// any other line, trimmed, is a line of the comment.
    pub open spec fn read_comment(self, line: Seq<char>) -> Draft {
        if starts_with(line, "!Padding:"@) {
            match padding_of(trim(line.skip(9))) {
                Some(padding) => Draft { padding, ..self },
                None => self,
            }
        } else if self.comment.len() == 0 {
            Draft { comment: trim(line.skip(1)), ..self }
        } else {
            Draft { comment: self.comment + "\n"@ + trim(line.skip(1)), ..self }
        }
    }

    /// A row of the body. The first row sets the width, and a later row of
    /// another width is an error.
    pub open spec fn read_row(self, line: Seq<char>) -> Result<Draft, Error> {
        let row = cells_of(line);
        if self.rows.len() == 0 {
            Ok(Draft { phase: Phase::Body, rows: self.rows.push(row), width: row.len(), ..self })
        } else if row.len() == self.width {
            Ok(Draft { phase: Phase::Body, rows: self.rows.push(row), ..self })
        } else {
            Err(Error::Invalid)
        }
    }

    /// One step of the reader. The first line is the name line. Lines that
    /// begin with `!` are comment lines until one does not: that line is
    /// the first row of the body, and every line after it is a row too.
    pub open spec fn read_line(self, line: Seq<char>) -> Result<Draft, Error> {
        match self.phase {
            Phase::Name => self.read_name(line),
            Phase::Comment => if starts_with(line, "!"@) {
                Ok(self.read_comment(line))
            } else {
                self.read_row(line)
            },
            Phase::Body => self.read_row(line),
        }
    }

    /// The name line, read with the flags that say which of its positions
    /// hold whitespace.
    pub open spec fn read_name_by(self, line: Seq<char>, white: Seq<bool>) -> Result<Draft, Error> {
        if starts_with(line, "!Name:"@) {
            let kept = trim_range(white, 6, line.len() as int);
            Ok(
                Draft {
                    phase: Phase::Comment,
                    name: self.name + line.subrange(kept.0, kept.1),
                    ..self
                },
            )
        } else {
            Err(Error::NameLineMissing)
        }
    }

    /// A line that begins with `!`, read before the body with the flags
    /// that say which of its positions hold whitespace.
    pub open spec fn read_comment_by(self, line: Seq<char>, white: Seq<bool>) -> Draft {
        if starts_with(line, "!Padding:"@) {
            let list = trim_range(white, 9, line.len() as int);
            match padding_by(line, white, list.0, list.1) {
                Some(padding) => Draft { padding, ..self },
                None => self,
            }
        } else {
            let kept = trim_range(white, 1, line.len() as int);
            if self.comment.len() == 0 {
                Draft { comment: line.subrange(kept.0, kept.1), ..self }
            } else {
                Draft { comment: self.comment + "\n"@ + line.subrange(kept.0, kept.1), ..self }
            }
        }
    }

    /// One step of the reader, as `read_line` takes it, with the flags that
    /// say which positions of the line hold whitespace.
    pub open spec fn read_line_by(self, line: Seq<char>, white: Seq<bool>) -> Result<
        Draft,
        Error,
    > {
        match self.phase {
            Phase::Name => self.read_name_by(line, white),
            Phase::Comment => if starts_with(line, "!"@) {
                Ok(self.read_comment_by(line, white))
            } else {
                self.read_row(line)
            },
            Phase::Body => self.read_row(line),
        }
    }

    /// The reader after all the lines, or the error of the first line that
    /// could not be read.
    pub open spec fn read_lines(self, lines: Seq<Seq<char>>) -> Result<Draft, Error>
        decreases lines.len(),
    {
        if lines.len() == 0 {
            Ok(self)
        } else {
            match self.read_lines(lines.drop_last()) {
                Ok(draft) => draft.read_line(lines.last()),
                Err(error) => Err(error),
            }
        }
    }

    /// Whether the board of the pattern fits the machine word.
    pub open spec fn fits(self) -> bool {
        padded_fits(self.width, self.rows.len(), self.padding)
    }

    /// The pattern that the lines read so far describe: the body with the
    /// margins around it.
    pub open spec fn pattern(self) -> Pattern {
        Pattern {
            name: self.name,
            comment: self.comment,
            board: padded(self.rows, self.width, self.padding),
        }
    }

    /// What the text comes to once its last line is read: the pattern, or
    /// the error of a missing name line if no name line was read.
    pub open spec fn finished(self) -> Result<Pattern, Error> {
        if self.phase == Phase::Name {
            Err(Error::NameLineMissing)
        } else {
            Ok(self.pattern())
        }
    }
}

/// What a text of the given lines describes: a pattern, or the error of
/// the first line that cannot be read. A text without any line lacks its
/// name line.
pub open spec fn parsed(lines: Seq<Seq<char>>) -> Result<Pattern, Error> {
    match Draft::start().read_lines(lines) {
        Ok(draft) => draft.finished(),
        Err(error) => Err(error),
    }
}

/// Whether a text of the given lines describes a pattern whose board does
/// not fit the machine word.
pub open spec fn too_large(lines: Seq<Seq<char>>) -> bool {
    match Draft::start().read_lines(lines) {
        Ok(draft) => !draft.fits(),
        Err(_) => false,
    }
}

/// With the flags that the line itself gives, a step by the flags is the
/// step of the reader.
pub proof fn lemma_read_line_by_own_flags(draft: Draft, line: Seq<char>)
    ensures
        draft.read_line_by(line, whitespace_of(line)) == draft.read_line(line),
{
    reveal_strlit("!Name:");
    reveal_strlit("!Padding:");
    reveal_strlit("!");
    let white = whitespace_of(line);
    let end = line.len() as int;
    if draft.phase == Phase::Name && starts_with(line, "!Name:"@) {
        lemma_trim_range(line, 6, end);
    }
    if draft.phase == Phase::Comment && starts_with(line, "!"@) {
        if starts_with(line, "!Padding:"@) {
            lemma_trim_range(line, 9, end);
            let list = trim_range(white, 9, end);
            lemma_padding_by_own_flags(line, list.0, list.1);
        } else {
            lemma_trim_range(line, 1, end);
        }
    }
}

/// The first error stands: once a beginning of the text cannot be read,
/// the whole text gives the same error.
pub proof fn lemma_first_error_stands(start: Draft, lines: Seq<Seq<char>>, count: int)
    requires
        0 <= count <= lines.len(),
        start.read_lines(lines.take(count)) is Err,
    ensures
        start.read_lines(lines) == start.read_lines(lines.take(count)),
    decreases lines.len(),
{
    if count == lines.len() {
        assert(lines.take(count) =~= lines);
    } else {
        assert(lines.drop_last().take(count) =~= lines.take(count));
        lemma_first_error_stands(start, lines.drop_last(), count);
    }
}

/// A reader that holds rows of one width holds rows of one width after
/// any further lines.
pub proof fn lemma_rows_stay_uniform(start: Draft, lines: Seq<Seq<char>>)
    requires
        start.wf(),
    ensures
        start.read_lines(lines) matches Ok(draft) ==> draft.wf(),
    decreases lines.len(),
{
    if lines.len() > 0 {
        lemma_rows_stay_uniform(start, lines.drop_last());
    }
}

/// What the first line decides: without the name tag the text is
/// rejected for that, and with it the name is settled and the only error
/// left is a row of another width.
proof fn lemma_first_line_decides(lines: Seq<Seq<char>>)
    requires
        lines.len() > 0,
    ensures
        match Draft::start().read_lines(lines) {
            Ok(draft) => starts_with(lines[0], "!Name:"@) && draft.phase != Phase::Name
                && draft.name == trim(lines[0].skip(6)) && draft.rows.len() < lines.len(),
            Err(error) => if starts_with(lines[0], "!Name:"@) {
                error == Error::Invalid && lines.len() > 2
            } else {
                error == Error::NameLineMissing
            },
        },
    decreases lines.len(),
{
    let earlier = lines.drop_last();
    if earlier.len() == 0 {
        assert(Draft::start().read_lines(earlier) == Ok::<Draft, Error>(Draft::start()));
        assert(Seq::<char>::empty() + trim(lines[0].skip(6)) =~= trim(lines[0].skip(6)));
    } else {
        lemma_first_line_decides(earlier);
    }
}

/// Where the body starts, looking from line `i` on: at the first line that
/// does not begin with `!`, or behind the last line if there is none.
pub open spec fn body_start_from(lines: Seq<Seq<char>>, i: int) -> int
    decreases lines.len() - i,
{
    if i >= lines.len() {
        lines.len() as int
    } else if !starts_with(lines[i], "!"@) {
        i
    } else {
        body_start_from(lines, i + 1)
    }
}

/// Where the body of a text starts: at the first line after the name line
/// that does not begin with `!`.
pub open spec fn body_start(lines: Seq<Seq<char>>) -> int {
    body_start_from(lines, 1)
}

/// The rows of the body: the cells of every line from the start of the
/// body to the end of the text.
pub open spec fn body_rows(lines: Seq<Seq<char>>) -> Seq<Seq<Cell>> {
    let start = body_start(lines);
    Seq::new((lines.len() - start) as nat, |k: int| cells_of(lines[start + k]))
}

/// The width of the first row, or 0 if there is no row.
pub open spec fn first_width(rows: Seq<Seq<Cell>>) -> nat {
    if rows.len() > 0 {
        rows[0].len()
    } else {
        0
    }
}

/// Whether every row is as wide as the first one.
pub open spec fn rows_agree(rows: Seq<Seq<Cell>>) -> bool {
    forall|i: int| 0 <= i < rows.len() ==> (#[trigger] rows[i]).len() == rows[0].len()
}

/// The margins that the lines `1..upto` ask for: those of the last padding
/// directive among them that can be read, or none.
pub open spec fn margins(lines: Seq<Seq<char>>, upto: int) -> Padding
    decreases upto,
{
    if upto <= 1 {
        Padding::zero()
    } else {
        let line = lines[upto - 1];
        let earlier = margins(lines, upto - 1);
        if starts_with(line, "!Padding:"@) {
            match padding_of(trim(line.skip(9))) {
                Some(padding) => padding,
                None => earlier,
            }
        } else {
            earlier
        }
    }
}

/// The start of the body lies between the line looked from and the end of
/// the text; every line before it begins with `!`, and the line at it, if
/// there is one, does not.
proof fn lemma_body_start_from(lines: Seq<Seq<char>>, i: int)
    requires
        0 <= i <= lines.len(),
    ensures
        i <= body_start_from(lines, i) <= lines.len(),
        forall|j: int| i <= j < body_start_from(lines, i) ==> starts_with(#[trigger] lines[j], "!"@),
        body_start_from(lines, i) < lines.len() ==> !starts_with(
            lines[body_start_from(lines, i)],
            "!"@,
        ),
    decreases lines.len() - i,
{
    if i < lines.len() && starts_with(lines[i], "!"@) {
        lemma_body_start_from(lines, i + 1);
    }
}

/// One more line moves the start of the body only if the body had not
/// started yet.
proof fn lemma_body_start_with_one_more(lines: Seq<Seq<char>>, i: int)
    requires
        lines.len() > 0,
        0 <= i <= lines.len() - 1,
    ensures
        body_start_from(lines, i) == {
            let earlier = body_start_from(lines.drop_last(), i);
            if earlier < lines.len() - 1 {
                earlier
            } else if starts_with(lines.last(), "!"@) {
                lines.len() as int
            } else {
                lines.len() - 1
            }
        },
    decreases lines.len() - i,
{
    let init = lines.drop_last();
    if i < init.len() {
        if starts_with(lines[i], "!"@) {
            lemma_body_start_with_one_more(lines, i + 1);
        }
    } else {
        reveal_with_fuel(body_start_from, 2);
    }
}

/// The margins that the first lines ask for do not depend on the last
/// line.
proof fn lemma_margins_of_a_beginning(lines: Seq<Seq<char>>, upto: int)
    requires
        lines.len() > 0,
        upto <= lines.len() - 1,
    ensures
        margins(lines.drop_last(), upto) == margins(lines, upto),
    decreases upto,
{
    if upto > 1 {
        lemma_margins_of_a_beginning(lines, upto - 1);
    }
}

/// What a reader holds after a text with a name line: the rows of the body
/// and the margins of the last directive, unless a row disagrees with the
/// first in width.
proof fn lemma_reading_a_named_text(lines: Seq<Seq<char>>)
    requires
        lines.len() > 0,
        starts_with(lines[0], "!Name:"@),
    ensures
        match Draft::start().read_lines(lines) {
            Ok(draft) => {
                &&& rows_agree(body_rows(lines))
                &&& draft.rows == body_rows(lines)
                &&& draft.width == first_width(body_rows(lines))
                &&& draft.padding == margins(lines, body_start(lines))
                &&& draft.phase == if body_start(lines) < lines.len() {
                    Phase::Body
                } else {
                    Phase::Comment
                }
            },
            Err(error) => error == Error::Invalid && !rows_agree(body_rows(lines)),
        },
    decreases lines.len(),
{
    let init = lines.drop_last();
    let n = init.len() as int;
    let rows = body_rows(lines);
    lemma_body_start_from(lines, 1);
    if n > 0 {
        let last = lines.last();
        let earlier = body_rows(init);
        let start = body_start(init);
        lemma_reading_a_named_text(init);
        lemma_body_start_from(init, 1);
        lemma_body_start_with_one_more(lines, 1);
        lemma_margins_of_a_beginning(lines, start);
        if start < n {
            assert(rows =~= earlier.push(cells_of(last)));
            match Draft::start().read_lines(init) {
                Ok(draft) => {
                    if cells_of(last).len() == draft.width {
                        assert(rows_agree(rows));
                    } else {
                        assert(rows[n - start] == cells_of(last));
                    }
                },
                Err(_) => {
                    let i = choose|i: int|
                        0 <= i < earlier.len() && (#[trigger] earlier[i]).len()
                            != earlier[0].len();
                    assert(rows[i] == earlier[i]);
                },
            }
        } else if starts_with(last, "!"@) {
            lemma_margins_of_a_beginning(lines, n);
        }
    }
}

/// A text with a name line is rejected exactly if a row of its body is not
/// as wide as the first row, and then for that reason.
pub proof fn lemma_rows_decide(lines: Seq<Seq<char>>)
    requires
        lines.len() > 0,
        starts_with(lines[0], "!Name:"@),
    ensures
        parsed(lines) is Err <==> !rows_agree(body_rows(lines)),
        parsed(lines) matches Err(error) ==> error == Error::Invalid,
{
    lemma_reading_a_named_text(lines);
}

/// What a text describes, told of the text itself: its board holds the
/// rows of the body, as wide as the first of them, within the margins of
/// the last padding directive that can be read. So the board is the body
/// width plus the left and right margins wide and the number of rows plus
/// the top and bottom margins high, and holds one cell for each position.
pub proof fn lemma_parsed_dimensions(lines: Seq<Seq<char>>)
    ensures
        parsed(lines) matches Ok(pattern) ==> {
            let rows = body_rows(lines);
            let padding = margins(lines, body_start(lines));
            &&& pattern.board == padded(rows, first_width(rows), padding)
            &&& pattern.board.width == first_width(rows) + padding.left + padding.right
            &&& pattern.board.height == rows.len() + padding.top + padding.bottom
            &&& pattern.board.wf()
        },
{
    if lines.len() > 0 {
        lemma_first_line_decides(lines);
        if starts_with(lines[0], "!Name:"@) {
            lemma_reading_a_named_text(lines);
        }
    }
}

/// The name of a pattern is what follows the name tag on the first line,
/// without the whitespace around it.
pub proof fn lemma_name_comes_from_the_first_line(lines: Seq<Seq<char>>)
    requires
        lines.len() > 0,
    ensures
        parsed(lines) matches Ok(pattern) ==> pattern.name == trim(lines[0].skip(6)),
{
    lemma_first_line_decides(lines);
}

/// A text is rejected for one of two reasons only: it has no first line
/// that begins with the name tag, or it has one and a later line is a row
/// of another width than the first row, which takes three lines at least.
pub proof fn lemma_errors_of_a_text(lines: Seq<Seq<char>>)
    ensures
        parsed(lines) matches Err(error) ==> if lines.len() > 0 && starts_with(
            lines[0],
            "!Name:"@,
        ) {
            error == Error::Invalid && lines.len() > 2
        } else {
            error == Error::NameLineMissing
        },
{
    if lines.len() > 0 {
        lemma_first_line_decides(lines);
    }
}

/// A text that does not begin with `!Name:` is rejected for its missing
/// name line, whatever follows: a text without any line, and a text whose
/// first line begins otherwise.
pub proof fn lemma_name_line_is_required(lines: Seq<Seq<char>>)
    requires
        lines.len() == 0 || !starts_with(lines[0], "!Name:"@),
    ensures
        parsed(lines) == Err::<Pattern, Error>(Error::NameLineMissing),
{
    if lines.len() > 0 {
        lemma_first_line_decides(lines);
    }
}

/// The board of every pattern that a text describes holds exactly one
/// cell for each of its positions.
pub proof fn lemma_parsed_board_is_well_formed(lines: Seq<Seq<char>>)
    ensures
        parsed(lines) matches Ok(pattern) ==> pattern.board.wf(),
{
}

/// A pattern read from a text: its name, its comment and its grid.
#[derive(Clone, Debug, PartialEq, Eq)]
pub struct PlainText {
    pub name: String,
    pub comment: String,
    pub data: Grid,
}

impl View for PlainText {
    type V = Pattern;

    open spec fn view(&self) -> Pattern {
        Pattern { name: self.name@, comment: self.comment@, board: self.data@ }
    }
}

/// A reader of patterns that is fed one line at a time.
pub struct PatternParser {
    phase: Phase,
    name: String,
    comment: String,
    rows: Vec<Vec<Cell>>,
    width: usize,
    padding: Padding,
}

impl View for PatternParser {
    type V = Draft;

    closed spec fn view(&self) -> Draft {
        Draft {
            phase: self.phase,
            name: self.name@,
            comment: self.comment@,
            rows: rows_view(self.rows@),
            width: self.width as nat,
            padding: self.padding,
        }
    }
}

impl PatternParser {
    /// A reader that has read no line yet.
    pub fn new() -> (parser: PatternParser)
        ensures
            parser@ == Draft::start(),
            parser@.wf(),
    {
        let parser = PatternParser {
            phase: Phase::Name,
            name: String::new(),
            comment: String::new(),
            rows: Vec::new(),
            width: 0,
            padding: Padding::none(),
        };
        assert(parser@.rows =~= Seq::<Seq<Cell>>::empty());
        parser
    }

    /// Reads the name line.
    fn read_name(&mut self, line: &str, chars: &Vec<char>, white: &Vec<bool>) -> (result: Result<
        (),
        Error,
    >)
        requires
            chars@ == line@,
            white@.len() == chars@.len(),
        ensures
            match old(self)@.read_name_by(line@, white@) {
                Ok(draft) => result is Ok && final(self)@ == draft,
                Err(error) => result == Err::<(), Error>(error) && final(self)@ == old(self)@,
            },
    {
        if !has_prefix(chars, "!Name:") {
            return Err(Error::NameLineMissing);
        }
        proof {
            reveal_strlit("!Name:");
        }
        let (first, last): (usize, usize) = trim_bounds(white, 6, chars.len());
        self.name.append(line.substring_char(first, last));
        self.phase = Phase::Comment;
        Ok(())
    }

    /// Reads a line that begins with `!` and comes before the body.
    fn read_comment(&mut self, line: &str, chars: &Vec<char>, white: &Vec<bool>)
        requires
            chars@ == line@,
            white@.len() == chars@.len(),
            starts_with(line@, "!"@),
        ensures
            final(self)@ == old(self)@.read_comment_by(line@, white@),
    {
        proof {
            reveal_strlit("!");
            reveal_strlit("!Padding:");
        }
        if has_prefix(chars, "!Padding:") {
            let (first, last): (usize, usize) = trim_bounds(white, 9, chars.len());
            match Padding::from_chars(chars, white, first, last) {
                Some(padding) => {
                    self.padding = padding;
                },
                None => {},
            }
        } else {
            if !self.comment.as_str().is_empty() {
                self.comment.append("\n");
            }
            let (first, last): (usize, usize) = trim_bounds(white, 1, chars.len());
            self.comment.append(line.substring_char(first, last));
        }
    }

    /// Reads a row of the body.
    fn read_row(&mut self, chars: &Vec<char>) -> (result: Result<(), Error>)
        requires
            old(self)@.wf(),
        ensures
            match old(self)@.read_row(chars@) {
                Ok(draft) => result is Ok && final(self)@ == draft && final(self)@.wf(),
                Err(error) => result == Err::<(), Error>(error) && final(self)@ == old(self)@,
            },
    {
        let row: Vec<Cell> = read_cells(chars);
        if self.rows.len() == 0 {
            self.width = row.len();
        } else if self.width != row.len() {
            return Err(Error::Invalid);
        }
        self.phase = Phase::Body;
        self.rows.push(row);
        assert(self@.rows =~= old(self)@.rows.push(row@));
        Ok(())
    }

    /// Reads a line of which the characters and their flags are at hand.
    fn read_chars(&mut self, line: &str, chars: &Vec<char>, white: &Vec<bool>) -> (result: Result<
        (),
        Error,
    >)
        requires
            old(self)@.wf(),
            chars@ == line@,
            white@.len() == chars@.len(),
        ensures
            match old(self)@.read_line_by(line@, white@) {
                Ok(draft) => result is Ok && final(self)@ == draft && final(self)@.wf(),
                Err(error) => result == Err::<(), Error>(error) && final(self)@ == old(self)@,
            },
    {
        match self.phase {
            Phase::Name => self.read_name(line, chars, white),
            Phase::Comment => {
                if has_prefix(chars, "!") {
                    self.read_comment(line, chars, white);
                    Ok(())
                } else {
                    self.read_row(chars)
                }
            },
            Phase::Body => self.read_row(chars),
        }
    }

    /// Reads the next line of the text, given for each of its characters
    /// whether it counts as whitespace. After an error the reader is as it
    /// was before the line.
    pub fn read_flagged(&mut self, line: &str, white: &Vec<bool>) -> (result: Result<(), Error>)
        requires
            old(self)@.wf(),
            white@.len() == line@.len(),
        ensures
            match old(self)@.read_line_by(line@, white@) {
                Ok(draft) => result is Ok && final(self)@ == draft && final(self)@.wf(),
                Err(error) => result == Err::<(), Error>(error) && final(self)@ == old(self)@,
            },
    {
        let chars: Vec<char> = chars_of(line);
        self.read_chars(line, &chars, white)
    }

    /// Reads the next line of the text. After an error the reader is as it
    /// was before the line.
    pub fn read_line(&mut self, line: &str) -> (result: Result<(), Error>)
        requires
            old(self)@.wf(),
        ensures
            match old(self)@.read_line(line@) {
                Ok(draft) => result is Ok && final(self)@ == draft && final(self)@.wf(),
                Err(error) => result == Err::<(), Error>(error) && final(self)@ == old(self)@,
            },
    {
        let chars: Vec<char> = chars_of(line);
        let white: Vec<bool> = whitespace_flags(&chars);
        proof {
            lemma_read_line_by_own_flags(old(self)@, line@);
        }
        self.read_chars(line, &chars, &white)
    }

    /// Takes what a read of the next line gave: the line is read as
    /// `read_line` reads it, and a failed read is handed back as the error
    /// `Io` with the reader as it was.
    pub fn read_next(&mut self, next: Result<String, std::io::Error>) -> (result: Result<
        (),
        Error,
    >)
        requires
            old(self)@.wf(),
        ensures
            match next {
                Ok(line) => match old(self)@.read_line(line@) {
                    Ok(draft) => result is Ok && final(self)@ == draft && final(self)@.wf(),
                    Err(error) => result == Err::<(), Error>(error) && final(self)@ == old(self)@,
                },
                Err(failure) => result == Err::<(), Error>(Error::Io(failure)) && final(self)@
                    == old(self)@,
            },
    {
        match next {
            Ok(line) => self.read_line(line.as_str()),
            Err(failure) => Err(Error::Io(failure)),
        }
    }

    /// Whether the board of the pattern read so far fits the machine word.
    pub fn fits(&self) -> (fits: bool)
        requires
            self@.wf(),
        ensures
            fits == self@.fits(),
    {
        check_padded_fits(self.width, self.rows.len(), self.padding)
    }

    /// Ends the text: the pattern that the lines describe, or the error of
    /// a missing name line if no name line was read.
    pub fn finish(self) -> (result: Result<PlainText, Error>)
        requires
            self@.wf(),
            self@.fits(),
        ensures
            match self@.finished() {
                Ok(pattern) => result is Ok && result->Ok_0@ == pattern && result->Ok_0.data@.wf(),
                Err(error) => result is Err && result->Err_0 == error,
            },
    {
        if self.phase == Phase::Name {
            return Err(Error::NameLineMissing);
        }
        assert forall|i: int| 0 <= i < self.rows@.len() implies (#[trigger] self.rows@[i])@.len()
            == self.width by {
            assert(self@.rows[i] == self.rows@[i]@);
        }
        let grid: Grid = pad_and_create_grid(self.rows, self.width, self.padding);
        Ok(PlainText { name: self.name, comment: self.comment, data: grid })
    }
}

/// Feeds all the lines to a new reader.
fn read_all(lines: &Vec<String>) -> (result: Result<PatternParser, Error>)
    ensures
        match Draft::start().read_lines(lines.deep_view()) {
            Ok(draft) => result is Ok && result->Ok_0@ == draft && draft.wf(),
            Err(error) => result is Err && result->Err_0 == error,
        },
{
    let ghost text = lines.deep_view();
    let mut parser: PatternParser = PatternParser::new();
    let mut i: usize = 0;
    while i < lines.len()
        invariant
            i <= lines@.len(),
            text == lines.deep_view(),
            text.len() == lines@.len(),
            parser@.wf(),
            Draft::start().read_lines(text.take(i as int)) == Ok::<Draft, Error>(parser@),
        decreases lines@.len() - i,
    {
        assert(text.take(i + 1).drop_last() =~= text.take(i as int));
        match parser.read_line(lines[i].as_str()) {
            Ok(()) => {},
            Err(error) => {
                proof {
                    lemma_first_error_stands(Draft::start(), text, i + 1);
                }
                return Err(error);
            },
        }
        i += 1;
    }
    assert(text.take(lines@.len() as int) =~= text);
    Ok(parser)
}

/// Reads a pattern from the lines of a text.
///
/// The first line names the pattern, and a text without it is rejected.
/// Lines that begin with `!` follow: comment lines and padding directives.
/// The first line without a `!` starts the body, whose rows must all have
/// the width of the first one.
pub fn parse_plaintext(lines: &Vec<String>) -> (result: Result<PlainText, Error>)
    requires
        !too_large(lines.deep_view()),
    ensures
        match parsed(lines.deep_view()) {
            Ok(pattern) => result is Ok && result->Ok_0@ == pattern && result->Ok_0.data@.wf(),
            Err(error) => result is Err && result->Err_0 == error,
        },
{
    match read_all(lines) {
        Ok(parser) => parser.finish(),
        Err(error) => Err(error),
    }
}

/// Reads a pattern from the lines of a text as `parse_plaintext` does,
/// unless the board would not fit the machine word: the result is then
/// `None`.
pub fn try_parse_plaintext(lines: &Vec<String>) -> (result: Option<Result<PlainText, Error>>)
    ensures
        too_large(lines.deep_view()) <==> result is None,
        result matches Some(outcome) ==> match parsed(lines.deep_view()) {
            Ok(pattern) => outcome is Ok && outcome->Ok_0@ == pattern && outcome->Ok_0.data@.wf(),
            Err(error) => outcome is Err && outcome->Err_0 == error,
        },
{
    match read_all(lines) {
        Ok(parser) => {
            if parser.fits() {
                Some(parser.finish())
            } else {
                None
            }
        },
        Err(error) => Some(Err(error)),
    }
}

} // verus!
