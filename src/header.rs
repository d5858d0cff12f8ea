//! The header line of a font file.

use vstd::prelude::*;

use crate::error::{FontError, HeaderField};
use crate::text::{
    canonical_int, chars_of, i32_of, int_text, lemma_canonical_int_text, parse_i32, string_of,
    tokens, tokens_of, views,
};

verus! {

/// An optional header integer: absent when the token is missing or does
/// not parse.
pub open spec fn optional_field(t: Seq<Seq<char>>, i: int) -> Option<i32> {
    if 0 <= i < t.len() {
        parse_i32(t[i])
    } else {
        None
    }
}

/// The error that decoding `line` as a header line gives, if any.
pub open spec fn header_error(line: Seq<char>) -> Option<FontError> {
    let t = tokens(line);
    if t.len() < 6 || t[0].len() < 6 {
        Some(FontError::MalformedHeader)
    } else if parse_i32(t[1]) is None {
        Some(FontError::InvalidField(HeaderField::Height))
    } else if parse_i32(t[2]) is None {
        Some(FontError::InvalidField(HeaderField::Baseline))
    } else if parse_i32(t[3]) is None {
        Some(FontError::InvalidField(HeaderField::MaxLength))
    } else if parse_i32(t[4]) is None {
        Some(FontError::InvalidField(HeaderField::OldLayout))
    } else if parse_i32(t[5]) is None {
        Some(FontError::InvalidField(HeaderField::CommentLines))
    } else {
        None
    }
}

/// The first line of a font file, decoded.
#[derive(Debug)]
pub struct HeaderLine {
    pub header_line: String,
    // required
    pub signature: String,
    pub hardblank: char,
    pub height: i32,
    pub baseline: i32,
    pub max_length: i32,
    pub old_layout: i32,
    pub comment_lines: i32,
    // optional
    pub print_direction: Option<i32>,
    pub full_layout: Option<i32>,
    pub codetag_count: Option<i32>,
}

impl HeaderLine {
    /// `self` is what decoding the header line `line` gives: the first
    /// token minus its last character is the signature, that character
    /// the hardblank; tokens 1 to 5 are the required integers and tokens
    /// 6 to 8 the optional ones.
    pub open spec fn parsed_from(&self, line: Seq<char>) -> bool {
        let t = tokens(line);
        &&& header_error(line) is None
        &&& self.header_line@ == line
        &&& self.signature@ == t[0].drop_last()
        &&& self.hardblank == t[0].last()
        &&& parse_i32(t[1]) == Some(self.height)
        &&& parse_i32(t[2]) == Some(self.baseline)
        &&& parse_i32(t[3]) == Some(self.max_length)
        &&& parse_i32(t[4]) == Some(self.old_layout)
        &&& parse_i32(t[5]) == Some(self.comment_lines)
        &&& self.print_direction == optional_field(t, 6)
        &&& self.full_layout == optional_field(t, 7)
        &&& self.codetag_count == optional_field(t, 8)
    }

    fn extract_signature_with_hardblank(token: &Vec<char>) -> (r: Result<(String, char), FontError>)
        ensures
            match r {
                Ok((sig, hb)) => token@.len() >= 6 && sig@ == token@.drop_last() && hb
                    == token@.last(),
                Err(e) => token@.len() < 6 && e == FontError::MalformedHeader,
            },
    {
        if token.len() < 6 {
            Err(FontError::MalformedHeader)
        } else {
            let last = token.len() - 1;
            let sig = string_of(vstd::slice::slice_subrange(token.as_slice(), 0, last));
            proof {
                assert(token@.subrange(0, last as int) =~= token@.drop_last());
            }
            Ok((sig, token[last]))
        }
    }

    fn extract_required_info(infos: &Vec<Vec<char>>, index: usize, field: HeaderField) -> (r:
        Result<i32, FontError>)
        ensures
            match optional_field(views(infos@), index as int) {
                Some(v) => r == Ok::<i32, FontError>(v),
                None => r == Err::<i32, FontError>(FontError::InvalidField(field)),
            },
    {
        if index >= infos.len() {
            return Err(FontError::InvalidField(field));
        }
        match i32_of(infos[index].as_slice()) {
            Some(v) => Ok(v),
            None => Err(FontError::InvalidField(field)),
        }
    }

    fn extract_optional_info(infos: &Vec<Vec<char>>, index: usize) -> (r: Option<i32>)
        ensures
            r == optional_field(views(infos@), index as int),
    {
        if index < infos.len() {
            i32_of(infos[index].as_slice())
        } else {
            None
        }
    }

    /// Decodes the header line whose characters are `line` and whose text
    /// is `text`.
    pub(crate) fn from_chars(line: &Vec<char>, text: String) -> (r: Result<HeaderLine, FontError>)
        requires
            text@ == line@,
        ensures
            match r {
                Ok(h) => h.parsed_from(line@),
                Err(e) => header_error(line@) == Some(e),
            },
    {
        let infos = tokens_of(line.as_slice());
        let ghost t = tokens(line@);
        assert(views(infos@).len() == infos@.len());
        if infos.len() < 6 {
            return Err(FontError::MalformedHeader);
        }
        assert(forall|i: int| 0 <= i < infos@.len() ==> infos@[i]@ == #[trigger] t[i]);
        let (signature, hardblank) = Self::extract_signature_with_hardblank(&infos[0])?;
        let height = Self::extract_required_info(&infos, 1, HeaderField::Height)?;
        let baseline = Self::extract_required_info(&infos, 2, HeaderField::Baseline)?;
        let max_length = Self::extract_required_info(&infos, 3, HeaderField::MaxLength)?;
        let old_layout = Self::extract_required_info(&infos, 4, HeaderField::OldLayout)?;
        let comment_lines = Self::extract_required_info(&infos, 5, HeaderField::CommentLines)?;
        let print_direction = Self::extract_optional_info(&infos, 6);
        let full_layout = Self::extract_optional_info(&infos, 7);
        let codetag_count = Self::extract_optional_info(&infos, 8);
        Ok(HeaderLine {
            header_line: text,
            signature,
            hardblank,
            height,
            baseline,
            max_length,
            old_layout,
            comment_lines,
            print_direction,
            full_layout,
            codetag_count,
        })
    }

    /// Decodes a header line: splits it into whitespace-separated tokens,
    /// takes the signature and hardblank from the first one and the
    /// integers from the rest. Fails with `MalformedHeader` when there are
    /// fewer than six tokens or the first has fewer than six characters,
    /// and with `InvalidField` for the first required integer that does
    /// not parse; optional integers that do not parse are left absent.
    pub fn new(header_line: &str) -> (r: Result<HeaderLine, FontError>)
        ensures
            match r {
                Ok(h) => h.parsed_from(header_line@),
                Err(e) => header_error(header_line@) == Some(e),
            },
    {
        let line = chars_of(header_line);
        let text = String::from_str(header_line);
        Self::from_chars(&line, text)
    }
}

/// A header line with fewer than six tokens is malformed.
pub proof fn lemma_few_tokens_malformed(line: Seq<char>)
    requires
        tokens(line).len() < 6,
    ensures
        header_error(line) == Some(FontError::MalformedHeader),
{
}

/// Writing back what a header line decodes to gives its tokens again: the
/// signature followed by the hardblank is the first token, and each
/// integer, written in decimal, is its token, where that token is written
/// the usual way (no `'+'`, no leading zeros).
pub proof fn lemma_header_round_trip(line: Seq<char>, h: HeaderLine)
    requires
        h.parsed_from(line),
        h.height > 0,
        h.comment_lines >= 0,
        forall|i: int| 1 <= i < 6 ==> canonical_int(#[trigger] tokens(line)[i]),
    ensures
        h.signature@.push(h.hardblank) == tokens(line)[0],
        int_text(h.height as int) == tokens(line)[1],
        int_text(h.baseline as int) == tokens(line)[2],
        int_text(h.max_length as int) == tokens(line)[3],
        int_text(h.old_layout as int) == tokens(line)[4],
        int_text(h.comment_lines as int) == tokens(line)[5],
        h.print_direction is Some && canonical_int(tokens(line)[6]) ==> int_text(
            h.print_direction->Some_0 as int,
        ) == tokens(line)[6],
        h.full_layout is Some && canonical_int(tokens(line)[7]) ==> int_text(
            h.full_layout->Some_0 as int,
        ) == tokens(line)[7],
        h.codetag_count is Some && canonical_int(tokens(line)[8]) ==> int_text(
            h.codetag_count->Some_0 as int,
        ) == tokens(line)[8],
{
    let t = tokens(line);
    assert(t[0].drop_last().push(t[0].last()) =~= t[0]);
    lemma_canonical_int_text(t[1]);
    lemma_canonical_int_text(t[2]);
    lemma_canonical_int_text(t[3]);
    lemma_canonical_int_text(t[4]);
    lemma_canonical_int_text(t[5]);
    if h.print_direction is Some && canonical_int(t[6]) {
        lemma_canonical_int_text(t[6]);
    }
    if h.full_layout is Some && canonical_int(t[7]) {
        lemma_canonical_int_text(t[7]);
    }
    if h.codetag_count is Some && canonical_int(t[8]) {
        lemma_canonical_int_text(t[8]);
    }
}

} // verus!
