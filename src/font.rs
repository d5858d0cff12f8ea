//! Loading a font: comments, the required glyphs and the code-tagged ones.

use std::collections::HashMap;

use vstd::prelude::*;

use crate::error::FontError;
use crate::glyph::{glyph_result, glyph_row, FIGcharacter};
use crate::header::{header_error, HeaderLine};
use crate::text::{
    chars_of, join_lines, lines_of, parse_i32, parse_u32, push_line, split_lines, string_of,
    tokens, tokens_of, u32_of, views,
};

verus! {

broadcast use vstd::std_specs::hash::group_hash_axioms;

/// The code point of the `k`-th required glyph: the printable ASCII
/// characters 32 to 126, then Ä, Ö, Ü, ä, ö, ü and ß.
pub open spec fn required_code(k: int) -> u32 {
    if k < 95 {
        (k + 32) as u32
    } else if k == 95 {
        196
    } else if k == 96 {
        214
    } else if k == 97 {
        220
    } else if k == 98 {
        228
    } else if k == 99 {
        246
    } else if k == 100 {
        252
    } else {
        223
    }
}

/// The number of required glyphs.
pub const REQUIRED_COUNT: u64 = 102;

/// The glyphs among the first `k` required ones whose first line lies in
/// the file, in order, each at `height` lines from the one before; or the
/// first error met reading them.
pub open spec fn read_required(
    lines: Seq<Seq<char>>,
    offset: int,
    height: int,
    hardblank: char,
    k: nat,
) -> Result<Seq<(u32, Seq<Seq<char>>)>, FontError>
    decreases k,
{
    if k == 0 {
        Ok(seq![])
    } else {
        match read_required(lines, offset, height, hardblank, (k - 1) as nat) {
            Err(e) => Err(e),
            Ok(es) => {
                let start = offset + (k - 1) * height;
                if start >= lines.len() {
                    Ok(es)
                } else {
                    match glyph_result(lines, start, height, hardblank) {
                        Err(e) => Err(e),
                        Ok(rows) => Ok(es.push((required_code(k - 1), rows))),
                    }
                }
            },
        }
    }
}

/// The table that entering these glyphs in order builds: a later glyph
/// replaces an earlier one with the same code.
pub open spec fn glyph_map(es: Seq<(u32, Seq<Seq<char>>)>) -> Map<u32, Seq<Seq<char>>>
    decreases es.len(),
{
    if es.len() == 0 {
        Map::empty()
    } else {
        glyph_map(es.drop_last()).insert(es.last().0, es.last().1)
    }
}

/// The glyph table `m` holds exactly the glyphs of `g`.
pub open spec fn table_matches(
    m: Map<u32, FIGcharacter>,
    g: Map<u32, Seq<Seq<char>>>,
    height: int,
) -> bool {
    &&& m.dom() == g.dom()
    &&& forall|k: u32| #[trigger] g.contains_key(k) ==> m[k].is_glyph(k, g[k], height)
}

/// `new` is `old` with the glyphs of `g` entered: their codes are added
/// and hold their glyphs, and every other entry of `old` is unchanged.
pub open spec fn table_extends(
    new: Map<u32, FIGcharacter>,
    old: Map<u32, FIGcharacter>,
    g: Map<u32, Seq<Seq<char>>>,
    height: int,
) -> bool {
    &&& new.dom() == old.dom().union(g.dom())
    &&& forall|k: u32| #[trigger] g.contains_key(k) ==> new[k].is_glyph(k, g[k], height)
    &&& forall|k: u32| #[trigger] old.contains_key(k) && !g.contains_key(k) ==> new[k] == old[k]
}

/// Entering one glyph after others keeps the table built so far extended
/// by all of them.
proof fn lemma_extends_push(
    prev: Map<u32, FIGcharacter>,
    start: Map<u32, FIGcharacter>,
    es: Seq<(u32, Seq<Seq<char>>)>,
    code: u32,
    rows: Seq<Seq<char>>,
    ch: FIGcharacter,
    height: int,
)
    requires
        table_extends(prev, start, glyph_map(es), height),
        ch.is_glyph(code, rows, height),
    ensures
        table_extends(prev.insert(code, ch), start, glyph_map(es.push((code, rows))), height),
{
    let next = es.push((code, rows));
    assert(next.drop_last() =~= es);
    let g = glyph_map(next);
    let new = prev.insert(code, ch);
    assert(new.dom() =~= start.dom().union(g.dom()));
    assert forall|k: u32| #[trigger] g.contains_key(k) implies new[k].is_glyph(k, g[k], height) by {
        if k != code {
            assert(glyph_map(es).contains_key(k));
        }
    }
}

/// Entering the glyphs of `a` and then those of `b` builds the table of
/// `a` overridden by that of `b`.
proof fn lemma_glyph_map_append(a: Seq<(u32, Seq<Seq<char>>)>, b: Seq<(u32, Seq<Seq<char>>)>)
    ensures
        glyph_map(a + b) == glyph_map(a).union_prefer_right(glyph_map(b)),
    decreases b.len(),
{
    if b.len() == 0 {
        assert(a + b =~= a);
        assert(glyph_map(a).union_prefer_right(glyph_map(b)) =~= glyph_map(a));
    } else {
        let b2 = b.drop_last();
        assert((a + b).drop_last() =~= a + b2);
        assert((a + b).last() == b.last());
        lemma_glyph_map_append(a, b2);
        assert(glyph_map(a + b) =~= glyph_map(a).union_prefer_right(glyph_map(b)));
    }
}

proof fn lemma_required_error_stays(
    lines: Seq<Seq<char>>,
    offset: int,
    height: int,
    hardblank: char,
    k: nat,
    k2: nat,
)
    requires
        k <= k2,
        read_required(lines, offset, height, hardblank, k) is Err,
    ensures
        read_required(lines, offset, height, hardblank, k2) == read_required(
            lines,
            offset,
            height,
            hardblank,
            k,
        ),
    decreases k2,
{
    if k < k2 {
        lemma_required_error_stays(lines, offset, height, hardblank, k, (k2 - 1) as nat);
    }
}

fn required_code_of(k: u64) -> (r: u32)
    requires
        k < 102,
    ensures
        r == required_code(k as int),
{
    if k < 95 {
        (k + 32) as u32
    } else if k == 95 {
        196
    } else if k == 96 {
        214
    } else if k == 97 {
        220
    } else if k == 98 {
        228
    } else if k == 99 {
        246
    } else if k == 100 {
        252
    } else {
        223
    }
}

/// The code point that a tag token denotes: after `0x` or `0X` in hex,
/// after any other leading `0` in octal, else in decimal.
pub open spec fn code_token(t: Seq<char>) -> Option<u32> {
    if t.len() >= 2 && t[0] == '0' && (t[1] == 'x' || t[1] == 'X') {
        parse_u32(t.skip(2), 16)
    } else if t.len() >= 2 && t[0] == '0' {
        parse_u32(t.skip(1), 8)
    } else {
        parse_u32(t, 10)
    }
}

/// The code point that a tag line gives: that of its first token.
pub open spec fn tag_code(line: Seq<char>) -> Option<u32> {
    let t = tokens(line);
    if t.len() == 0 {
        None
    } else {
        code_token(t[0])
    }
}

/// The number of code-tagged entries, of `height + 1` lines each, that fill
/// the lines from `offset` to the end; none when the file ends before
/// `offset`.
pub open spec fn tagged_count(len: int, offset: int, height: int) -> Result<nat, FontError> {
    if offset >= len {
        Ok(0)
    } else if (len - offset) % (height + 1) != 0 {
        Err(FontError::MalformedCodetagSection)
    } else {
        Ok(((len - offset) / (height + 1)) as nat)
    }
}

/// The first `n` code-tagged glyphs, in order: each is a tag line and the
/// `height` lines of the glyph; or the first error met reading them.
pub open spec fn read_tagged(
    lines: Seq<Seq<char>>,
    offset: int,
    height: int,
    hardblank: char,
    n: nat,
) -> Result<Seq<(u32, Seq<Seq<char>>)>, FontError>
    decreases n,
{
    if n == 0 {
        Ok(seq![])
    } else {
        match read_tagged(lines, offset, height, hardblank, (n - 1) as nat) {
            Err(e) => Err(e),
            Ok(es) => {
                let start = offset + (n - 1) * (height + 1);
                match tag_code(lines[start]) {
                    None => Err(FontError::InvalidCodetagCode),
                    Some(code) => match glyph_result(lines, start + 1, height, hardblank) {
                        Err(e) => Err(e),
                        Ok(rows) => Ok(es.push((code, rows))),
                    },
                }
            },
        }
    }
}

proof fn lemma_tagged_error_stays(
    lines: Seq<Seq<char>>,
    offset: int,
    height: int,
    hardblank: char,
    n: nat,
    n2: nat,
)
    requires
        n <= n2,
        read_tagged(lines, offset, height, hardblank, n) is Err,
    ensures
        read_tagged(lines, offset, height, hardblank, n2) == read_tagged(
            lines,
            offset,
            height,
            hardblank,
            n,
        ),
    decreases n2,
{
    if n < n2 {
        lemma_tagged_error_stays(lines, offset, height, hardblank, n, (n2 - 1) as nat);
    }
}

/// All glyphs of a font whose comment block has `comments` lines and whose
/// glyphs are `height` lines high: the required ones, then the
/// code-tagged ones; or the first error met reading them.
pub open spec fn font_entries(lines: Seq<Seq<char>>, comments: int, height: int, hardblank: char) -> Result<
    Seq<(u32, Seq<Seq<char>>)>,
    FontError,
> {
    let tag_offset = 1 + comments + 102 * height;
    match read_required(lines, 1 + comments, height, hardblank, 102) {
        Err(e) => Err(e),
        Ok(req) => match tagged_count(lines.len() as int, tag_offset, height) {
            Err(e) => Err(e),
            Ok(n) => match read_tagged(lines, tag_offset, height, hardblank, n) {
                Err(e) => Err(e),
                Ok(tg) => Ok(req + tg),
            },
        },
    }
}

/// The first line of a font file; empty when it has none.
pub open spec fn header_text(s: Seq<char>) -> Seq<char> {
    let lines = split_lines(s);
    if lines.len() > 0 {
        lines[0]
    } else {
        seq![]
    }
}

/// The glyph height that a decodable header line gives.
pub open spec fn header_height(line: Seq<char>) -> int {
    parse_i32(tokens(line)[1])->Some_0 as int
}

/// The number of comment lines that a decodable header line gives.
pub open spec fn header_comment_lines(line: Seq<char>) -> int {
    parse_i32(tokens(line)[5])->Some_0 as int
}

/// The hardblank that a decodable header line gives.
pub open spec fn header_hardblank(line: Seq<char>) -> char {
    tokens(line)[0].last()
}

/// Why the font file `s` does not load, or `None` when it does: its header
/// line does not decode, or gives a height below one or a negative comment
/// count; the file ends inside the comment block; or reading the glyphs
/// fails.
pub open spec fn load_error(s: Seq<char>) -> Option<FontError> {
    let lines = split_lines(s);
    let hl = header_text(s);
    let h = header_height(hl);
    let c = header_comment_lines(hl);
    if header_error(hl) is Some {
        header_error(hl)
    } else if h < 1 || c < 0 {
        Some(FontError::MalformedHeader)
    } else if lines.len() < c + 1 {
        Some(FontError::TruncatedFile)
    } else {
        match font_entries(lines, c, h, header_hardblank(hl)) {
            Err(e) => Some(e),
            Ok(_) => None,
        }
    }
}

/// The comment block of a font file that loads: its lines joined by
/// newlines.
pub open spec fn font_comments(s: Seq<char>) -> Seq<char> {
    let c = header_comment_lines(header_text(s));
    join_lines(split_lines(s).subrange(1, 1 + c))
}

/// The glyph table of a font file that loads.
pub open spec fn font_glyphs(s: Seq<char>) -> Map<u32, Seq<Seq<char>>> {
    let hl = header_text(s);
    glyph_map(
        font_entries(
            split_lines(s),
            header_comment_lines(hl),
            header_height(hl),
            header_hardblank(hl),
        )->Ok_0,
    )
}

/// A loaded font: its header, its comment block and its glyph table.
pub struct FIGfont {
    pub header_line: HeaderLine,
    pub comments: String,
    pub fonts: HashMap<u32, FIGcharacter>,
}

impl FIGfont {
    /// `self` is what loading the font file `s` gives.
    pub open spec fn loaded_from(&self, s: Seq<char>) -> bool {
        &&& load_error(s) is None
        &&& self.header_line.parsed_from(header_text(s))
        &&& self.comments@ == font_comments(s)
        &&& table_matches(self.fonts@, font_glyphs(s), header_height(header_text(s)))
    }

    fn read_header_line(header_line: &Vec<char>) -> (r: Result<HeaderLine, FontError>)
        ensures
            match r {
                Ok(h) => h.parsed_from(header_line@),
                Err(e) => header_error(header_line@) == Some(e),
            },
    {
        HeaderLine::from_chars(header_line, string_of(header_line.as_slice()))
    }

    fn read_comments(lines: &Vec<Vec<char>>, comment_count: i32) -> (r: Result<String, FontError>)
        requires
            comment_count >= 0,
        ensures
            lines@.len() < comment_count + 1 ==> r == Err::<String, FontError>(
                FontError::TruncatedFile,
            ),
            lines@.len() >= comment_count + 1 ==> r is Ok && r->Ok_0@ == join_lines(
                views(lines@).subrange(1, 1 + comment_count),
            ),
    {
        let ghost ls = views(lines@);
        if (lines.len() as u64) < comment_count as u64 + 1 {
            return Err(FontError::TruncatedFile);
        }
        let end = comment_count as usize + 1;
        let mut out: Vec<char> = Vec::new();
        let mut j: usize = 1;
        while j < end
            invariant
                1 <= j <= end,
                end == comment_count + 1,
                end <= lines@.len(),
                ls == views(lines@),
                out@ == join_lines(ls.subrange(1, j as int)),
            decreases end - j,
        {
            proof {
                assert(ls.subrange(1, j + 1).drop_last() =~= ls.subrange(1, j as int));
            }
            push_line(&mut out, &lines[j], j > 1);
            j = j + 1;
        }
        Ok(string_of(out.as_slice()))
    }

    fn read_fonts(lines: &Vec<Vec<char>>, headerline: &HeaderLine) -> (r: Result<
        HashMap<u32, FIGcharacter>,
        FontError,
    >)
        requires
            headerline.height >= 1,
            headerline.comment_lines >= 0,
        ensures
            match font_entries(
                views(lines@),
                headerline.comment_lines as int,
                headerline.height as int,
                headerline.hardblank,
            ) {
                Ok(es) => r is Ok && table_matches(
                    r->Ok_0@,
                    glyph_map(es),
                    headerline.height as int,
                ),
                Err(e) => r == Err::<HashMap<u32, FIGcharacter>, FontError>(e),
            },
    {
        let mut map: HashMap<u32, FIGcharacter> = HashMap::new();
        let ghost m0 = map@;
        match Self::read_required_font(lines, headerline, &mut map) {
            Ok(()) => {},
            Err(e) => {
                return Err(e);
            },
        }
        let ghost ls = views(lines@);
        let ghost h = headerline.height as int;
        let ghost hb = headerline.hardblank;
        let ghost c = headerline.comment_lines as int;
        let ghost req = read_required(ls, 1 + c, h, hb, 102)->Ok_0;
        let ghost m1 = map@;
        match Self::read_codetag_font(lines, headerline, &mut map) {
            Ok(()) => {
                proof {
                    let tag_offset = 1 + c + 102 * h;
                    let n = tagged_count(ls.len() as int, tag_offset, h)->Ok_0;
                    let tg = read_tagged(ls, tag_offset, h, hb, n)->Ok_0;
                    lemma_glyph_map_append(req, tg);
                    let g = glyph_map(req + tg);
                    let m2 = map@;
                    assert(m2.dom() =~= g.dom());
                    assert forall|k: u32| #[trigger] g.contains_key(k) implies m2[k].is_glyph(
                        k,
                        g[k],
                        h,
                    ) by {
                        if !glyph_map(tg).contains_key(k) {
                            assert(glyph_map(req).contains_key(k));
                            assert(m1.contains_key(k));
                        }
                    }
                }
                Ok(map)
            },
            Err(e) => Err(e),
        }
    }

    /// Loads a font from the text of a font file: decodes the header line,
    /// reads the comment block and builds the glyph table.
    pub fn from_content(contents: &str) -> (r: Result<FIGfont, FontError>)
        ensures
            match r {
                Ok(f) => f.loaded_from(contents@),
                Err(e) => load_error(contents@) == Some(e),
            },
    {
        let chars = chars_of(contents);
        let lines = lines_of(&chars);
        let ghost ls = views(lines@);
        let empty: Vec<char> = Vec::new();
        let first = if lines.len() > 0 {
            &lines[0]
        } else {
            &empty
        };
        assert(first@ == header_text(contents@));
        let header_line = match Self::read_header_line(first) {
            Ok(h) => h,
            Err(e) => {
                return Err(e);
            },
        };
        if header_line.height < 1 || header_line.comment_lines < 0 {
            return Err(FontError::MalformedHeader);
        }
        let comments = match Self::read_comments(&lines, header_line.comment_lines) {
            Ok(c) => c,
            Err(e) => {
                return Err(e);
            },
        };
        let fonts = match Self::read_fonts(&lines, &header_line) {
            Ok(f) => f,
            Err(e) => {
                return Err(e);
            },
        };
        Ok(FIGfont { header_line, comments, fonts })
    }

    /// Enters the required glyphs into the empty table `map`.
    fn read_required_font(
        lines: &Vec<Vec<char>>,
        headerline: &HeaderLine,
        map: &mut HashMap<u32, FIGcharacter>,
    ) -> (r: Result<(), FontError>)
        requires
            headerline.height >= 1,
            headerline.comment_lines >= 0,
        ensures
            match read_required(
                views(lines@),
                1 + headerline.comment_lines,
                headerline.height as int,
                headerline.hardblank,
                102,
            ) {
                Ok(es) => r is Ok && table_extends(
                    final(map)@,
                    old(map)@,
                    glyph_map(es),
                    headerline.height as int,
                ),
                Err(e) => r == Err::<(), FontError>(e),
            },
    {
        let ghost ls = views(lines@);
        let ghost off: int = 1 + headerline.comment_lines as int;
        let ghost h: int = headerline.height as int;
        let hardblank = headerline.hardblank;
        let offset: u64 = 1 + headerline.comment_lines as u64;
        let height: u64 = headerline.height as u64;
        let size = lines.len();
        let mut k: u64 = 0;
        let ghost m0 = map@;
        proof {
            assert(map@.dom() =~= m0.dom().union(glyph_map(seq![]).dom()));
        }
        while k < REQUIRED_COUNT
            invariant
                k <= 102,
                size == lines@.len(),
                ls == views(lines@),
                offset == off,
                height == h,
                off == 1 + headerline.comment_lines as int,
                h == headerline.height as int,
                1 <= h <= i32::MAX,
                0 <= off <= i32::MAX as int + 1,
                hardblank == headerline.hardblank,
                m0 == old(map)@,
                read_required(ls, off, h, hardblank, k as nat) is Ok,
                table_extends(
                    map@,
                    m0,
                    glyph_map(read_required(ls, off, h, hardblank, k as nat)->Ok_0),
                    h,
                ),
            decreases 102 - k,
        {
            let code = required_code_of(k);
            assert(k * height <= 101 * 0x8000_0000) by (nonlinear_arith)
                requires
                    k <= 101,
                    height <= 0x8000_0000,
            ;
            let start: u64 = offset + k * height;
            let ghost es = read_required(ls, off, h, hardblank, k as nat)->Ok_0;
            if start < size as u64 {
                match Self::extract_one_font(
                    lines,
                    code,
                    start as usize,
                    height as usize,
                    hardblank,
                ) {
                    Ok(ch) => {
                        let ghost rows = glyph_result(ls, start as int, h, hardblank)->Ok_0;
                        proof {
                            lemma_extends_push(map@, m0, es, code, rows, ch, h);
                        }
                        map.insert(code, ch);
                    },
                    Err(e) => {
                        proof {
                            assert(start as int == off + k * h);
                            assert(glyph_result(ls, start as int, h, hardblank) == Err::<
                                Seq<Seq<char>>,
                                FontError,
                            >(e));
                            assert(read_required(ls, off, h, hardblank, (k + 1) as nat) == Err::<
                                Seq<(u32, Seq<Seq<char>>)>,
                                FontError,
                            >(e));
                            lemma_required_error_stays(ls, off, h, hardblank, (k + 1) as nat, 102);
                        }
                        return Err(e);
                    },
                }
            }
            k = k + 1;
        }
        Ok(())
    }

    fn extract_codetag_font_code(lines: &Vec<Vec<char>>, index: usize) -> (r: Result<u32, FontError>)
        ensures
            index >= lines@.len() ==> r == Err::<u32, FontError>(FontError::TruncatedFile),
            index < lines@.len() ==> match tag_code(lines@[index as int]@) {
                Some(c) => r == Ok::<u32, FontError>(c),
                None => r == Err::<u32, FontError>(FontError::InvalidCodetagCode),
            },
    {
        if index >= lines.len() {
            return Err(FontError::TruncatedFile);
        }
        let infos = tokens_of(lines[index].as_slice());
        assert(views(infos@).len() == infos@.len());
        if infos.len() == 0 {
            return Err(FontError::InvalidCodetagCode);
        }
        let code = &infos[0];
        assert(code@ == tokens(lines@[index as int]@)[0]);
        let n = code.len();
        let parsed = if n >= 2 && code[0] == '0' && (code[1] == 'x' || code[1] == 'X') {
            u32_of(vstd::slice::slice_subrange(code.as_slice(), 2, n), 16)
        } else if n >= 2 && code[0] == '0' {
            u32_of(vstd::slice::slice_subrange(code.as_slice(), 1, n), 8)
        } else {
            u32_of(code.as_slice(), 10)
        };
        proof {
            assert(code@.subrange(2, n as int) =~= code@.skip(2));
            assert(code@.subrange(1, n as int) =~= code@.skip(1));
        }
        match parsed {
            Some(c) => Ok(c),
            None => Err(FontError::InvalidCodetagCode),
        }
    }

    /// Enters the code-tagged glyphs into `map`, in order.
    fn read_codetag_font(
        lines: &Vec<Vec<char>>,
        headerline: &HeaderLine,
        map: &mut HashMap<u32, FIGcharacter>,
    ) -> (r: Result<(), FontError>)
        requires
            headerline.height >= 1,
            headerline.comment_lines >= 0,
        ensures
            match tagged_count(
                lines@.len() as int,
                1 + headerline.comment_lines + 102 * headerline.height,
                headerline.height as int,
            ) {
                Err(e) => r == Err::<(), FontError>(e) && final(map)@ == old(map)@,
                Ok(n) => match read_tagged(
                    views(lines@),
                    1 + headerline.comment_lines + 102 * headerline.height,
                    headerline.height as int,
                    headerline.hardblank,
                    n,
                ) {
                    Ok(tg) => r is Ok && table_extends(
                        final(map)@,
                        old(map)@,
                        glyph_map(tg),
                        headerline.height as int,
                    ),
                    Err(e) => r == Err::<(), FontError>(e),
                },
            },
    {
        let ghost ls = views(lines@);
        let ghost off: int = 1 + headerline.comment_lines as int + 102 * headerline.height as int;
        let ghost h: int = headerline.height as int;
        let hardblank = headerline.hardblank;
        let offset: u64 = 1 + headerline.comment_lines as u64 + 102 * headerline.height as u64;
        let codetag_height: u64 = headerline.height as u64 + 1;
        let n = lines.len();
        let size = n as u64;
        let ghost m0 = map@;
        if offset >= size {
            proof {
                assert(map@.dom() =~= m0.dom().union(glyph_map(seq![]).dom()));
            }
            return Ok(());
        }
        let codetag_lines = size - offset;
        if codetag_lines % codetag_height != 0 {
            return Err(FontError::MalformedCodetagSection);
        }
        let count = codetag_lines / codetag_height;
        assert(count * codetag_height == codetag_lines) by (nonlinear_arith)
            requires
                codetag_lines % codetag_height == 0,
                count == codetag_lines / codetag_height,
                codetag_height > 0,
        ;
        let mut i: u64 = 0;
        proof {
            assert(map@.dom() =~= m0.dom().union(glyph_map(seq![]).dom()));
        }
        while i < count
            invariant
                i <= count,
                count * codetag_height == codetag_lines,
                codetag_lines == size - offset,
                size == lines@.len(),
                n == lines@.len(),
                ls == views(lines@),
                offset == off,
                codetag_height == h + 1,
                off == 1 + headerline.comment_lines as int + 102 * headerline.height as int,
                h == headerline.height as int,
                1 <= h <= i32::MAX,
                hardblank == headerline.hardblank,
                tagged_count(lines@.len() as int, off, h) == Ok::<nat, FontError>(count as nat),
                m0 == old(map)@,
                read_tagged(ls, off, h, hardblank, i as nat) is Ok,
                table_extends(
                    map@,
                    m0,
                    glyph_map(read_tagged(ls, off, h, hardblank, i as nat)->Ok_0),
                    h,
                ),
            decreases count - i,
        {
            assert(i * codetag_height + codetag_height <= codetag_lines) by (nonlinear_arith)
                requires
                    i < count,
                    count * codetag_height == codetag_lines,
            ;
            let start: u64 = offset + i * codetag_height;
            let ghost es = read_tagged(ls, off, h, hardblank, i as nat)->Ok_0;
            assert(start as int == off + i * (h + 1));
            assert(start < n);
            assert(ls[start as int] == lines@[start as int]@);
            let code = match Self::extract_codetag_font_code(lines, start as usize) {
                Ok(code) => code,
                Err(e) => {
                    proof {
                        let n1 = (i + 1) as nat;
                        assert((n1 - 1) * (h + 1) == i * (h + 1));
                        assert(read_tagged(ls, off, h, hardblank, n1) == Err::<
                            Seq<(u32, Seq<Seq<char>>)>,
                            FontError,
                        >(e));
                        lemma_tagged_error_stays(ls, off, h, hardblank, n1, count as nat);
                    }
                    return Err(e);
                },
            };
            match Self::extract_one_font(
                lines,
                code,
                (start + 1) as usize,
                headerline.height as usize,
                hardblank,
            ) {
                Ok(ch) => {
                    let ghost rows = glyph_result(ls, start + 1, h, hardblank)->Ok_0;
                    proof {
                        let n1 = (i + 1) as nat;
                        assert((n1 - 1) * (h + 1) == i * (h + 1));
                        assert(read_tagged(ls, off, h, hardblank, n1) == Ok::<
                            Seq<(u32, Seq<Seq<char>>)>,
                            FontError,
                        >(es.push((code, rows))));
                        lemma_extends_push(map@, m0, es, code, rows, ch, h);
                    }
                    map.insert(code, ch);
                },
                Err(e) => {
                    proof {
                        let n1 = (i + 1) as nat;
                        assert((n1 - 1) * (h + 1) == i * (h + 1));
                        assert(glyph_result(ls, start + 1, h, hardblank) == Err::<
                            Seq<Seq<char>>,
                            FontError,
                        >(e));
                        assert(read_tagged(ls, off, h, hardblank, n1) == Err::<
                            Seq<(u32, Seq<Seq<char>>)>,
                            FontError,
                        >(e));
                        lemma_tagged_error_stays(ls, off, h, hardblank, n1, count as nat);
                    }
                    return Err(e);
                },
            }
            i = i + 1;
        }
        Ok(())
    }
}

/// A glyph of a font `height` rows high: it has `height` rows, and no row
/// holds the hardblank, unless the hardblank is the space itself.
pub open spec fn glyph_shape(rows: Seq<Seq<char>>, height: int, hardblank: char) -> bool {
    &&& rows.len() == height
    &&& forall|i: int, j: int|
        0 <= i < height && 0 <= j < rows[i].len() ==> (#[trigger] rows[i][j] != hardblank
            || hardblank == ' ')
}

/// Every glyph that can be read from the lines of a file has that shape.
proof fn lemma_glyph_result_shape(lines: Seq<Seq<char>>, start: int, height: int, hardblank: char)
    requires
        height >= 0,
        glyph_result(lines, start, height, hardblank) is Ok,
    ensures
        glyph_shape(glyph_result(lines, start, height, hardblank)->Ok_0, height, hardblank),
{
    let rows = glyph_result(lines, start, height, hardblank)->Ok_0;
    assert forall|i: int, j: int| 0 <= i < height && 0 <= j < rows[i].len() implies (
    #[trigger] rows[i][j] != hardblank || hardblank == ' ') by {
        assert(rows[i] == glyph_row(lines[start + i], i == height - 1 && height != 1, hardblank));
    }
}

proof fn lemma_required_shape(
    lines: Seq<Seq<char>>,
    offset: int,
    height: int,
    hardblank: char,
    k: nat,
)
    requires
        height >= 0,
        read_required(lines, offset, height, hardblank, k) is Ok,
    ensures
        ({
            let es = read_required(lines, offset, height, hardblank, k)->Ok_0;
            forall|i: int| 0 <= i < es.len() ==> glyph_shape(#[trigger] es[i].1, height, hardblank)
        }),
    decreases k,
{
    if k > 0 {
        lemma_required_shape(lines, offset, height, hardblank, (k - 1) as nat);
        let start = offset + (k - 1) * height;
        if start < lines.len() {
            lemma_glyph_result_shape(lines, start, height, hardblank);
        }
    }
}

proof fn lemma_tagged_shape(lines: Seq<Seq<char>>, offset: int, height: int, hardblank: char, n: nat)
    requires
        height >= 0,
        read_tagged(lines, offset, height, hardblank, n) is Ok,
    ensures
        ({
            let es = read_tagged(lines, offset, height, hardblank, n)->Ok_0;
            forall|i: int| 0 <= i < es.len() ==> glyph_shape(#[trigger] es[i].1, height, hardblank)
        }),
    decreases n,
{
    if n > 0 {
        lemma_tagged_shape(lines, offset, height, hardblank, (n - 1) as nat);
        let start = offset + (n - 1) * (height + 1);
        if tag_code(lines[start]) is Some {
            lemma_glyph_result_shape(lines, start + 1, height, hardblank);
        }
    }
}

/// A table built from glyphs of one shape holds only glyphs of that shape.
proof fn lemma_map_shape(es: Seq<(u32, Seq<Seq<char>>)>, height: int, hardblank: char)
    requires
        forall|i: int| 0 <= i < es.len() ==> glyph_shape(#[trigger] es[i].1, height, hardblank),
    ensures
        forall|k: u32| #[trigger]
            glyph_map(es).contains_key(k) ==> glyph_shape(glyph_map(es)[k], height, hardblank),
    decreases es.len(),
{
    if es.len() > 0 {
        let init = es.drop_last();
        assert forall|i: int| 0 <= i < init.len() implies glyph_shape(
            #[trigger] init[i].1,
            height,
            hardblank,
        ) by {
            assert(init[i] == es[i]);
        }
        lemma_map_shape(init, height, hardblank);
        let last = es[es.len() - 1];
        assert(glyph_shape(last.1, height, hardblank));
        assert forall|k: u32| #[trigger] glyph_map(es).contains_key(k) implies glyph_shape(
            glyph_map(es)[k],
            height,
            hardblank,
        ) by {
            if k != last.0 {
                assert(glyph_map(init).contains_key(k));
            }
        }
    }
}

/// Every glyph of a loaded font has as many rows as the font is high, and
/// no row holds the hardblank unless the hardblank is the space: each
/// hardblank of the file has become a space.
pub proof fn lemma_loaded_glyph_shape(font: &FIGfont, s: Seq<char>)
    requires
        font.loaded_from(s),
    ensures
        forall|k: u32| #[trigger]
            font.fonts@.contains_key(k) ==> glyph_shape(
                font.fonts@[k].rows(),
                font.header_line.height as int,
                font.header_line.hardblank,
            ),
        forall|k: u32| #[trigger]
            font.fonts@.contains_key(k) ==> font.fonts@[k].characters@.len()
                == font.header_line.height,
{
    let hl = header_text(s);
    let lines = split_lines(s);
    let h = header_height(hl);
    let c = header_comment_lines(hl);
    let hb = header_hardblank(hl);
    let tag_offset = 1 + c + 102 * h;
    lemma_required_shape(lines, 1 + c, h, hb, 102);
    let req = read_required(lines, 1 + c, h, hb, 102)->Ok_0;
    let n = tagged_count(lines.len() as int, tag_offset, h)->Ok_0;
    lemma_tagged_shape(lines, tag_offset, h, hb, n);
    let tg = read_tagged(lines, tag_offset, h, hb, n)->Ok_0;
    let es = req + tg;
    assert forall|i: int| 0 <= i < es.len() implies glyph_shape(#[trigger] es[i].1, h, hb) by {
        if i < req.len() {
            assert(es[i] == req[i]);
        } else {
            assert(es[i] == tg[i - req.len()]);
        }
    }
    lemma_map_shape(es, h, hb);
    assert forall|k: u32| #[trigger] font.fonts@.contains_key(k) implies font.fonts@[k].characters@.len()
        == font.header_line.height by {
        assert(font.fonts@[k].rows().len() == font.fonts@[k].characters@.len());
    }
}

} // verus!
