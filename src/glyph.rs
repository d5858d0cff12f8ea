//! Glyphs and how their rows are cut out of the lines of a font file.

use vstd::prelude::*;

use crate::error::FontError;
use crate::font::FIGfont;
use crate::text::{string_of, views};

verus! {

/// A glyph row as read from its line: the last `strip` characters (its
/// end marks) are dropped and every hardblank becomes a space.
pub open spec fn glyph_row(line: Seq<char>, last: bool, hardblank: char) -> Seq<char> {
    let keep = if last {
        line.len() - 2
    } else {
        line.len() - 1
    };
    Seq::new(keep as nat, |j: int| if line[j] == hardblank { ' ' } else { line[j] })
}

/// The `height` rows of the glyph whose lines start at `start`. Its last
/// row ends in two end marks, the others in one; a glyph of height one
/// has a single end mark.
pub open spec fn glyph_rows(lines: Seq<Seq<char>>, start: int, height: int, hardblank: char) -> Seq<
    Seq<char>,
> {
    Seq::new(
        height as nat,
        |i: int| glyph_row(lines[start + i], i == height - 1 && height != 1, hardblank),
    )
}

/// The error that the line at `index` gives as a glyph row: `TruncatedFile`
/// when the file has no such line, `GlyphRowTooShort` when it has fewer
/// than three characters.
pub open spec fn row_error(lines: Seq<Seq<char>>, index: int) -> Option<FontError> {
    if index < 0 || index >= lines.len() {
        Some(FontError::TruncatedFile)
    } else if lines[index].len() < 3 {
        Some(FontError::GlyphRowTooShort)
    } else {
        None
    }
}

/// The error of the first failing row among the first `k` rows of the
/// glyph whose lines start at `start`, if any.
pub open spec fn rows_error(lines: Seq<Seq<char>>, start: int, k: nat) -> Option<FontError>
    decreases k,
{
    if k == 0 {
        None
    } else {
        match rows_error(lines, start, (k - 1) as nat) {
            Some(e) => Some(e),
            None => row_error(lines, start + k - 1),
        }
    }
}

/// Reading the glyph whose lines start at `start`: rows are read in order,
/// and the first row that fails decides the error.
pub open spec fn glyph_result(lines: Seq<Seq<char>>, start: int, height: int, hardblank: char) -> Result<
    Seq<Seq<char>>,
    FontError,
> {
    match rows_error(lines, start, height as nat) {
        Some(e) => Err(e),
        None => Ok(glyph_rows(lines, start, height, hardblank)),
    }
}

proof fn lemma_rows_error_stays(lines: Seq<Seq<char>>, start: int, k: nat, k2: nat)
    requires
        k <= k2,
        rows_error(lines, start, k) is Some,
    ensures
        rows_error(lines, start, k2) == rows_error(lines, start, k),
    decreases k2,
{
    if k < k2 {
        lemma_rows_error_stays(lines, start, k, (k2 - 1) as nat);
    }
}

/// The rendering of one character.
#[derive(Debug)]
pub struct FIGcharacter {
    pub code: u32,
    pub characters: Vec<String>,
    pub width: u32,
    pub height: u32,
}

impl FIGcharacter {
    /// The rows of the glyph.
    pub open spec fn rows(&self) -> Seq<Seq<char>> {
        self.characters@.map_values(|s: String| s@)
    }

    /// `self` is the glyph for `code` with these rows in a font of this
    /// height; its width is the length of its first row.
    pub open spec fn is_glyph(&self, code: u32, rows: Seq<Seq<char>>, height: int) -> bool {
        &&& self.code == code
        &&& self.rows() == rows
        &&& self.width == rows[0].len() as u32
        &&& self.height == height as u32
    }

    /// The rows joined by newlines.
    pub fn to_text(&self) -> (r: String)
        ensures
            r@ == crate::text::join_lines(self.rows()),
    {
        let mut out: Vec<char> = Vec::new();
        let mut i: usize = 0;
        while i < self.characters.len()
            invariant
                i <= self.characters@.len(),
                out@ == crate::text::join_lines(self.rows().take(i as int)),
            decreases self.characters@.len() - i,
        {
            let row = crate::text::chars_of(self.characters[i].as_str());
            proof {
                assert(self.rows().take(i + 1).drop_last() =~= self.rows().take(i as int));
            }
            crate::text::push_line(&mut out, &row, i > 0);
            i = i + 1;
        }
        proof {
            assert(self.rows().take(i as int) =~= self.rows());
        }
        string_of(out.as_slice())
    }
}

impl FIGfont {
    fn extract_one_line(
        lines: &Vec<Vec<char>>,
        index: usize,
        height: usize,
        hardblank: char,
        is_last_index: bool,
    ) -> (r: Result<String, FontError>)
        ensures
            match row_error(views(lines@), index as int) {
                Some(e) => r == Err::<String, FontError>(e),
                None => r is Ok && r->Ok_0@ == glyph_row(
                    lines@[index as int]@,
                    is_last_index && height != 1,
                    hardblank,
                ),
            },
    {
        if index >= lines.len() {
            return Err(FontError::TruncatedFile);
        }
        assert(views(lines@)[index as int] == lines@[index as int]@);
        let line = &lines[index];
        if line.len() < 3 {
            return Err(FontError::GlyphRowTooShort);
        }
        let mut width = line.len() - 1;
        if is_last_index && height != 1 {
            width = width - 1;
        }
        let ghost want = glyph_row(line@, is_last_index && height != 1, hardblank);
        let mut out: Vec<char> = Vec::new();
        let mut j: usize = 0;
        while j < width
            invariant
                j <= width,
                width <= line@.len(),
                want == glyph_row(line@, is_last_index && height != 1, hardblank),
                want.len() == width,
                out@ == want.take(j as int),
            decreases width - j,
        {
            let c = line[j];
            if c == hardblank {
                out.push(' ');
            } else {
                out.push(c);
            }
            j = j + 1;
            assert(out@ =~= want.take(j as int));
        }
        assert(out@ =~= want);
        Ok(string_of(out.as_slice()))
    }

    /// Reads the glyph for `code` from the `height` lines that start at
    /// `start_index`.
    pub(crate) fn extract_one_font(
        lines: &Vec<Vec<char>>,
        code: u32,
        start_index: usize,
        height: usize,
        hardblank: char,
    ) -> (r: Result<FIGcharacter, FontError>)
        requires
            1 <= height <= u32::MAX,
        ensures
            match glyph_result(views(lines@), start_index as int, height as int, hardblank) {
                Ok(rows) => r is Ok && r->Ok_0.is_glyph(code, rows, height as int),
                Err(e) => r == Err::<FIGcharacter, FontError>(e),
            },
    {
        let ghost ls = views(lines@);
        let ghost want = glyph_rows(ls, start_index as int, height as int, hardblank);
        let mut characters: Vec<String> = Vec::new();
        let mut i: usize = 0;
        let n = lines.len();
        while i < height
            invariant
                i <= height,
                n == lines@.len(),
                ls == views(lines@),
                want == glyph_rows(ls, start_index as int, height as int, hardblank),
                rows_error(ls, start_index as int, i as nat) is None,
                characters@.map_values(|s: String| s@) == want.take(i as int),
            decreases height - i,
        {
            let is_last_index = i == height - 1;
            if start_index >= n || i >= n - start_index {
                proof {
                    assert(rows_error(ls, start_index as int, (i + 1) as nat) == Some(
                        FontError::TruncatedFile,
                    ));
                    lemma_rows_error_stays(ls, start_index as int, (i + 1) as nat, height as nat);
                }
                return Err(FontError::TruncatedFile);
            }
            let index = start_index + i;
            let row = match Self::extract_one_line(lines, index, height, hardblank, is_last_index) {
                Ok(row) => row,
                Err(e) => {
                    proof {
                        assert(rows_error(ls, start_index as int, (i + 1) as nat) == Some(e));
                        lemma_rows_error_stays(
                            ls,
                            start_index as int,
                            (i + 1) as nat,
                            height as nat,
                        );
                    }
                    return Err(e);
                },
            };
            let ghost before = characters@.map_values(|s: String| s@);
            assert(ls[index as int] == lines@[index as int]@);
            assert(row@ == want[i as int]);
            let ghost rv = row@;
            characters.push(row);
            assert(characters@.map_values(|s: String| s@) =~= before.push(rv));
            assert(want.take(i + 1) =~= want.take(i as int).push(want[i as int]));
            i = i + 1;
        }
        assert(characters@.map_values(|s: String| s@) =~= want);
        let width = #[verifier::truncate] (characters[0].as_str().unicode_len() as u32);
        Ok(FIGcharacter { code, characters, width, height: height as u32 })
    }
}

} // verus!
