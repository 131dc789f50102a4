//! Maps byte offsets of a source text to line and column numbers.
use vstd::prelude::*;
use vstd::utf8::encode_utf8;
use crate::tokenizer::char_code_definitions::is_bom;

verus! {

const N: u8 = 10;

const F: u8 = 12;

const R: u8 = 13;

/// A line feed, form feed or carriage return byte.
pub open spec fn newline_byte(b: u8) -> bool {
    b == 10 || b == 12 || b == 13
}

/// The (line, column) of byte offset `i` of `bytes`, counting from `line` and
/// `column` at offset 0: each newline byte (a CR LF pair counts as two) starts a
/// new line at column 1, every other byte moves one column on.
pub open spec fn location_at(bytes: Seq<u8>, line: int, column: int, i: int) -> (int, int)
    decreases i,
{
    if i <= 0 {
        (line, column)
    } else {
        let p = location_at(bytes, line, column, i - 1);
        if newline_byte(bytes[i - 1]) {
            (p.0 + 1, 1)
        } else {
            (p.0, p.1 + 1)
        }
    }
}

/// How many newline bytes come before offset `i`.
pub open spec fn newlines_before(bytes: Seq<u8>, i: int) -> int
    decreases i,
{
    if i <= 0 {
        0
    } else {
        newlines_before(bytes, i - 1) + (if newline_byte(bytes[i - 1]) { 1int } else { 0int })
    }
}

/// The offset of the last newline byte before offset `i`, or -1 when there is none.
pub open spec fn last_newline_before(bytes: Seq<u8>, i: int) -> int
    decreases i,
{
    if i <= 0 {
        -1
    } else if newline_byte(bytes[i - 1]) {
        i - 1
    } else {
        last_newline_before(bytes, i - 1)
    }
}

/// The line of an offset is the starting line plus the newline bytes before it;
/// its column is counted from the starting column on the first line, and from 1 just
/// after the last newline byte otherwise.
pub proof fn location_counts_newlines(bytes: Seq<u8>, line: int, column: int, i: int)
    requires
        0 <= i,
    ensures
        location_at(bytes, line, column, i).0 == line + newlines_before(bytes, i),
        location_at(bytes, line, column, i).1 == (if last_newline_before(bytes, i) < 0 {
            column + i
        } else {
            i - last_newline_before(bytes, i)
        }),
    decreases i,
{
    if i > 0 {
        location_counts_newlines(bytes, line, column, i - 1);
    }
}

pub proof fn lemma_location_bounds(bytes: Seq<u8>, line: int, column: int, i: int)
    requires
        0 <= i,
        0 <= column,
    ensures
        line <= location_at(bytes, line, column, i).0 <= line + i,
        0 <= location_at(bytes, line, column, i).1 <= (if column >= 1 { column } else { 1 }) + i,
    decreases i,
{
    if i > 0 {
        lemma_location_bounds(bytes, line, column, i - 1);
    }
}

pub struct OffsetToLocation {
    source: String,
    start_offset: usize,
    start_line: usize,
    start_column: usize,
    lines: Vec<usize>,
    columns: Vec<usize>,
    computed: bool,
}

/// A position in a source: the source name (when given), the offset, and the line
/// and column.
pub struct Location {
    pub source: Option<String>,
    pub offset: usize,
    pub line: usize,
    pub column: usize,
}

/// A range of a named source.
pub struct LocationRange {
    pub source: String,
    pub start: Location,
    pub end: Location,
}

impl OffsetToLocation {
    /// The source text.
    pub closed spec fn text(&self) -> Seq<char> {
        self.source@
    }

    /// The bytes of the source text (UTF-8).
    pub open spec fn bytes(&self) -> Seq<u8> {
        encode_utf8(self.text())
    }

    /// The offset that offset 0 of the text stands for.
    pub closed spec fn base_offset(&self) -> int {
        self.start_offset as int
    }

    /// The line of offset 0.
    pub closed spec fn base_line(&self) -> int {
        self.start_line as int
    }

    /// The column of offset 0.
    pub closed spec fn base_column(&self) -> int {
        self.start_column as int
    }

    /// The line and column tables have been computed.
    pub closed spec fn is_computed(&self) -> bool {
        self.computed
    }

    /// Computed tables hold the location of every offset up to the end of the text.
    pub closed spec fn wf(&self) -> bool {
        self.computed ==> {
            let len = encode_utf8(self.source@).len() as int;
            &&& self.lines@.len() == len + 1
            &&& self.columns@.len() == len + 1
            &&& forall|i: int| 0 <= i <= len ==> (#[trigger] self.lines@[i] as int, self.columns@[i] as int)
                == location_at(encode_utf8(self.source@), self.start_line as int, self.start_column as int, i)
        }
    }

    /// Lines, columns and offsets of the text can be counted without overflow.
    pub open spec fn fits(&self) -> bool {
        &&& self.base_line() + self.bytes().len() <= usize::MAX
        &&& self.base_column() + self.bytes().len() < usize::MAX
    }

    pub fn new(source: String, start_offset: usize, start_line: usize, start_column: usize) -> (r: Self)
        ensures
            r.wf(),
            r.text() == source@,
            r.base_offset() == start_offset,
            r.base_line() == start_line,
            r.base_column() == start_column,
            !r.is_computed(),
    {
        let mut instance = OffsetToLocation {
            source,
            start_offset,
            start_line,
            start_column,
            lines: Vec::new(),
            columns: Vec::new(),
            computed: false,
        };
        let source_copy = instance.source.clone();
        instance.set_source(source_copy, start_offset, start_line, start_column);
        instance
    }

    /// Replaces the source and the base position; the tables are computed anew on
    /// the next lookup.
    pub fn set_source(&mut self, source: String, start_offset: usize, start_line: usize, start_column: usize)
        ensures
            final(self).wf(),
            final(self).text() == source@,
            final(self).base_offset() == start_offset,
            final(self).base_line() == start_line,
            final(self).base_column() == start_column,
            !final(self).is_computed(),
    {
        self.source = source;
        self.start_offset = start_offset;
        self.start_line = start_line;
        self.start_column = start_column;
        self.computed = false;
    }

    /// The location of `offset`, named `filename`.
    pub fn get_location(&mut self, offset: usize, filename: &str) -> (r: Location)
        requires
            old(self).wf(),
            old(self).fits(),
            offset <= old(self).bytes().len(),
            old(self).base_offset() + offset <= usize::MAX,
        ensures
            final(self).wf(),
            final(self).is_computed(),
            final(self).text() == old(self).text(),
            final(self).base_offset() == old(self).base_offset(),
            final(self).base_line() == old(self).base_line(),
            final(self).base_column() == old(self).base_column(),
            r.source matches Some(name) && name@ == filename@,
            r.offset == old(self).base_offset() + offset,
            (r.line as int, r.column as int) == location_at(
                old(self).bytes(),
                old(self).base_line(),
                old(self).base_column(),
                offset as int,
            ),
    {
        if !self.computed {
            self.compute_lines_and_columns();
        }
        Location {
            source: Some(filename.to_owned()),
            offset: self.start_offset + offset,
            line: self.lines[offset],
            column: self.columns[offset],
        }
    }

    /// The locations of `start` and `end`, in a range named `filename`.
    pub fn get_location_range(&mut self, start: usize, end: usize, filename: &str) -> (r: LocationRange)
        requires
            old(self).wf(),
            old(self).fits(),
            start <= old(self).bytes().len(),
            end <= old(self).bytes().len(),
            old(self).base_offset() + start <= usize::MAX,
            old(self).base_offset() + end <= usize::MAX,
        ensures
            final(self).wf(),
            final(self).is_computed(),
            final(self).text() == old(self).text(),
            final(self).base_offset() == old(self).base_offset(),
            final(self).base_line() == old(self).base_line(),
            final(self).base_column() == old(self).base_column(),
            r.source@ == filename@,
            r.start.source is None,
            r.start.offset == old(self).base_offset() + start,
            (r.start.line as int, r.start.column as int) == location_at(
                old(self).bytes(),
                old(self).base_line(),
                old(self).base_column(),
                start as int,
            ),
            r.end.source is None,
            r.end.offset == old(self).base_offset() + end,
            (r.end.line as int, r.end.column as int) == location_at(
                old(self).bytes(),
                old(self).base_line(),
                old(self).base_column(),
                end as int,
            ),
    {
        if !self.computed {
            self.compute_lines_and_columns();
        }
        LocationRange {
            source: filename.to_owned(),
            start: Location {
                source: None,
                offset: self.start_offset + start,
                line: self.lines[start],
                column: self.columns[start],
            },
            end: Location {
                source: None,
                offset: self.start_offset + end,
                line: self.lines[end],
                column: self.columns[end],
            },
        }
    }

    fn compute_lines_and_columns(&mut self)
        requires
            old(self).fits(),
        ensures
            final(self).wf(),
            final(self).is_computed(),
            final(self).text() == old(self).text(),
            final(self).base_offset() == old(self).base_offset(),
            final(self).base_line() == old(self).base_line(),
            final(self).base_column() == old(self).base_column(),
    {
        let source = self.source.as_str().as_bytes();
        let source_length = source.len();
        let ghost bytes = source@;
        let ghost sl = self.start_line as int;
        let ghost sc = self.start_column as int;
        assert(bytes == encode_utf8(self.source@));
        let mut start_offset: usize = 0;
        if source_length > 0 && is_bom(source[0] as u32) {
            start_offset = 1;
        }
        assert(start_offset == 0);
        let mut lines: Vec<usize> = Vec::new();
        let mut columns: Vec<usize> = Vec::new();
        let mut k: usize = 0;
        while k <= source_length
            invariant
                k <= source_length + 1,
                source_length == bytes.len(),
                source_length < usize::MAX,
                lines@.len() == k,
                columns@.len() == k,
            decreases source_length + 1 - k,
        {
            lines.push(0);
            columns.push(0);
            k += 1;
        }
        let mut line = self.start_line;
        let mut column = self.start_column;
        let mut i = start_offset;
        while i < source_length
            invariant
                source@ == bytes,
                source_length == bytes.len(),
                sl == self.start_line,
                sc == self.start_column,
                sl + source_length <= usize::MAX,
                sc + source_length < usize::MAX,
                0 <= sc,
                i <= source_length,
                lines@.len() == source_length + 1,
                columns@.len() == source_length + 1,
                (line as int, column as int) == location_at(bytes, sl, sc, i as int),
                forall|j: int| 0 <= j < i ==> (#[trigger] lines@[j] as int, columns@[j] as int)
                    == location_at(bytes, sl, sc, j),
            decreases source_length - i,
        {
            proof {
                lemma_location_bounds(bytes, sl, sc, i as int);
            }
            let code: u8 = source[i];
            lines.set(i, line);
            columns.set(i, column);
            column += 1;
            if code == N || code == R || code == F {
                if code == R && i + 1 < source_length && source[i + 1] as u32 == N as u32 {
                    lines.set(i + 1, line);
                    columns.set(i + 1, column);
                }
                line += 1;
                column = 1;
            }
            i += 1;
        }
        proof {
            lemma_location_bounds(bytes, sl, sc, source_length as int);
        }
        lines.set(source_length, line);
        columns.set(source_length, column);
        self.lines = lines;
        self.columns = columns;
        self.computed = true;
    }
}

} // verus!
