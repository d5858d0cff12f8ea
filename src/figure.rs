//! Rendering a message with a loaded font.

use vstd::prelude::*;

use crate::font::FIGfont;
use crate::glyph::FIGcharacter;
use crate::text::chars_of;

verus! {

broadcast use vstd::std_specs::hash::group_hash_axioms;

/// The code points of the characters of `msg` that have a glyph in
/// `table`, in order; the others are dropped.
pub open spec fn resolved(msg: Seq<char>, table: Map<u32, FIGcharacter>) -> Seq<u32>
    decreases msg.len(),
{
    if msg.len() == 0 {
        seq![]
    } else {
        let rest = resolved(msg.drop_last(), table);
        let code = msg.last() as u32;
        if table.contains_key(code) {
            rest.push(code)
        } else {
            rest
        }
    }
}

/// Row `row` of a figure: that row of each glyph, side by side; a glyph
/// without such a row adds nothing.
pub open spec fn row_text(glyphs: Seq<&FIGcharacter>, row: int) -> Seq<char>
    decreases glyphs.len(),
{
    if glyphs.len() == 0 {
        seq![]
    } else {
        let g = glyphs.last();
        row_text(glyphs.drop_last(), row) + if 0 <= row < g.characters@.len() {
            g.characters@[row]@
        } else {
            seq![]
        }
    }
}

/// The first `rows` rows of a figure, each ended by a newline.
pub open spec fn rows_text(glyphs: Seq<&FIGcharacter>, rows: int) -> Seq<char>
    decreases rows,
{
    if rows <= 0 {
        seq![]
    } else {
        rows_text(glyphs, rows - 1) + row_text(glyphs, rows - 1) + seq!['\n']
    }
}

/// The glyphs of a rendered message, in the order of its characters.
pub struct FIGure<'a> {
    pub characters: Vec<&'a FIGcharacter>,
    pub height: u32,
}

impl<'a> FIGure<'a> {
    /// The text of the figure: `height` rows, each ended by a newline;
    /// empty when there is no glyph or no row.
    pub open spec fn text(&self) -> Seq<char> {
        if self.characters@.len() > 0 && self.height > 0 {
            rows_text(self.characters@, self.height as int)
        } else {
            seq![]
        }
    }

    fn is_not_empty(&self) -> (r: bool)
        ensures
            r == (self.characters@.len() > 0 && self.height > 0),
    {
        !self.characters.is_empty() && self.height > 0
    }

    /// The figure as text (see [`FIGure::text`]).
    pub fn to_text(&self) -> (r: String)
        ensures
            r@ == self.text(),
    {
        let mut out = String::new();
        if !self.is_not_empty() {
            return out;
        }
        let ghost gs = self.characters@;
        let mut row: u32 = 0;
        while row < self.height
            invariant
                row <= self.height,
                gs == self.characters@,
                out@ == rows_text(gs, row as int),
            decreases self.height - row,
        {
            let ghost start = out@;
            let mut k: usize = 0;
            while k < self.characters.len()
                invariant
                    k <= gs.len(),
                    gs == self.characters@,
                    out@ == start + row_text(gs.take(k as int), row as int),
                decreases gs.len() - k,
            {
                let g = self.characters[k];
                proof {
                    assert(gs.take(k + 1).drop_last() =~= gs.take(k as int));
                }
                if (row as usize) < g.characters.len() {
                    out.append(g.characters[row as usize].as_str());
                    assert(out@ =~= start + row_text(gs.take(k + 1), row as int));
                } else {
                    assert(out@ =~= start + row_text(gs.take(k + 1), row as int));
                }
                k = k + 1;
            }
            proof {
                assert(gs.take(k as int) =~= gs);
                reveal_strlit("\n");
            }
            out.append("\n");
            row = row + 1;
            assert(out@ =~= rows_text(gs, row as int));
        }
        out
    }
}

impl FIGfont {
    /// `r` is what rendering `message` gives: no figure when none of its
    /// characters has a glyph (an empty message included); otherwise the
    /// glyphs of those that have one, in order, with the font's height.
    pub open spec fn renders(&self, message: Seq<char>, r: Option<FIGure>) -> bool {
        let codes = resolved(message, self.fonts@);
        match r {
            None => codes.len() == 0,
            Some(f) => {
                &&& codes.len() > 0
                &&& f.height == self.header_line.height as u32
                &&& f.characters@.len() == codes.len()
                &&& forall|i: int|
                    0 <= i < codes.len() ==> *(#[trigger] f.characters@[i]) == self.fonts@[codes[i]]
            },
        }
    }

    /// Renders `message`: looks up the glyph of each character and drops
    /// the characters that have none.
    pub fn convert<'a>(&'a self, message: &str) -> (r: Option<FIGure<'a>>)
        ensures
            self.renders(message@, r),
    {
        let chars = chars_of(message);
        if chars.len() == 0 {
            return None;
        }
        let ghost table = self.fonts@;
        let mut characters: Vec<&'a FIGcharacter> = Vec::new();
        let mut i: usize = 0;
        while i < chars.len()
            invariant
                i <= chars@.len(),
                table == self.fonts@,
                characters@.len() == resolved(chars@.take(i as int), table).len(),
                forall|j: int|
                    0 <= j < characters@.len() ==> *(#[trigger] characters@[j]) == table[resolved(
                        chars@.take(i as int),
                        table,
                    )[j]],
            decreases chars@.len() - i,
        {
            let code = chars[i] as u32;
            proof {
                assert(chars@.take(i + 1).drop_last() =~= chars@.take(i as int));
            }
            match self.fonts.get(&code) {
                Some(character) => {
                    characters.push(character);
                },
                None => {},
            }
            i = i + 1;
        }
        proof {
            assert(chars@.take(i as int) =~= chars@);
        }
        if characters.len() == 0 {
            return None;
        }
        Some(FIGure { characters, height: self.header_line.height as u32 })
    }
}

/// Rendering is deterministic: two renderings of one message with one font
/// hold the same glyphs in the same order, have the same height and give
/// the same text.
pub proof fn lemma_render_deterministic(
    font: &FIGfont,
    message: Seq<char>,
    a: Option<FIGure>,
    b: Option<FIGure>,
)
    requires
        font.renders(message, a),
        font.renders(message, b),
    ensures
        a is None <==> b is None,
        a is Some ==> {
            &&& a->Some_0.characters@ == b->Some_0.characters@
            &&& a->Some_0.height == b->Some_0.height
            &&& a->Some_0.text() == b->Some_0.text()
        },
{
    if a is Some {
        let fa = a->Some_0;
        let fb = b->Some_0;
        assert(fa.characters@ =~= fb.characters@);
    }
}

proof fn lemma_resolved_empty(msg: Seq<char>, table: Map<u32, FIGcharacter>)
    requires
        forall|i: int| 0 <= i < msg.len() ==> !table.contains_key(#[trigger] msg[i] as u32),
    ensures
        resolved(msg, table).len() == 0,
    decreases msg.len(),
{
    if msg.len() > 0 {
        let init = msg.drop_last();
        assert forall|i: int| 0 <= i < init.len() implies !table.contains_key(
            #[trigger] init[i] as u32,
        ) by {
            assert(init[i] == msg[i]);
        }
        lemma_resolved_empty(init, table);
        assert(!table.contains_key(msg[msg.len() - 1] as u32));
    }
}

/// A message none of whose characters has a glyph, the empty message
/// included, renders to no figure.
pub proof fn lemma_unsupported_gives_no_figure(font: &FIGfont, message: Seq<char>, r: Option<FIGure>)
    requires
        font.renders(message, r),
        forall|i: int|
            0 <= i < message.len() ==> !font.fonts@.contains_key(#[trigger] message[i] as u32),
    ensures
        r is None,
{
    lemma_resolved_empty(message, font.fonts@);
}

} // verus!
