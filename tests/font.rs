use figlet_rs::{FIGfont, FontError};

/// A font one row high with one comment line, whose required glyph number
/// `k` reads `c` followed by `k` in three digits; `tail` follows it.
fn tiny_font(tail: &str) -> String {
    let mut s = String::from("flf2a$ 1 0 4 0 1\na comment\n");
    for k in 0..102 {
        s.push_str(&format!("c{:03}@\n", k));
    }
    s.push_str(tail);
    s
}

#[test]
fn test_new_figfont() {
    let font = FIGfont::standand();
    assert!(font.is_ok());
    let font = font.unwrap();

    let headerline = font.header_line;
    assert_eq!("flf2a$ 6 5 16 15 11 0 24463", headerline.header_line);
    assert_eq!("flf2a", headerline.signature);
    assert_eq!('$', headerline.hardblank);
    assert_eq!(6, headerline.height);
    assert_eq!(5, headerline.baseline);
    assert_eq!(16, headerline.max_length);
    assert_eq!(15, headerline.old_layout);
    assert_eq!(11, headerline.comment_lines);
    assert_eq!(Some(0), headerline.print_direction);
    assert_eq!(Some(24463), headerline.full_layout);
    assert_eq!(None, headerline.codetag_count);

    assert_eq!(
        "Standard by Glenn Chappell & Ian Chai 3/93 -- based on Frank's .sig
\x49ncludes ISO Latin-1
figlet release 2.1 -- 12 Aug 1994
Modified for figlet 2.2 by John Cowan <cowan@ccil.org>
  to add Latin-{2,3,4,5} support (Unicode U+0100-017F).
Permission is hereby given to modify this font, as long as the
modifier's name is placed on a comment line.

Modified by Paul Burton <solution@earthlink.net> 12/96 to \x69nclude new parameter
supported by FIGlet and FIGWin.  May also be slightly modified for better use
of new full-width/kern/smush alternatives, but default output is NOT changed.",
        font.comments
    );

    let one_font = font.fonts.get(&('F' as u32));
    assert!(one_font.is_some());

    let one_font = one_font.unwrap();
    assert_eq!(70, one_font.code);
    assert_eq!(8, one_font.width);
    assert_eq!(6, one_font.height);

    assert_eq!(6, one_font.characters.len());
    assert_eq!("  _____ ", one_font.characters.get(0).unwrap());
    assert_eq!(" |  ___|", one_font.characters.get(1).unwrap());
    assert_eq!(" | |_   ", one_font.characters.get(2).unwrap());
    assert_eq!(" |  _|  ", one_font.characters.get(3).unwrap());
    assert_eq!(" |_|    ", one_font.characters.get(4).unwrap());
    assert_eq!("        ", one_font.characters.get(5).unwrap());
}

#[test]
fn new_fig_font() {
    let font = FIGfont::standand().unwrap();

    let headerline = font.header_line;
    assert_eq!("flf2a$ 6 5 16 15 11 0 24463", headerline.header_line);
    assert_eq!("flf2a", headerline.signature);
    assert_eq!("$", headerline.hardblank.to_string());
    assert_eq!(6, headerline.height);
    assert_eq!(5, headerline.baseline);
    assert_eq!(16, headerline.max_length);
    assert_eq!(15, headerline.old_layout);
    assert_eq!(11, headerline.comment_lines);
    assert_eq!(Some(0), headerline.print_direction);
    assert_eq!(Some(24463), headerline.full_layout);
    assert_eq!(None, headerline.codetag_count);

    assert_eq!(
        "Standard by Glenn Chappell & Ian Chai 3/93 -- based on Frank's .sig
\x49ncludes ISO Latin-1
figlet release 2.1 -- 12 Aug 1994
Modified for figlet 2.2 by John Cowan <cowan@ccil.org>
  to add Latin-{2,3,4,5} support (Unicode U+0100-017F).
Permission is hereby given to modify this font, as long as the
modifier's name is placed on a comment line.

Modified by Paul Burton <solution@earthlink.net> 12/96 to \x69nclude new parameter
supported by FIGlet and FIGWin.  May also be slightly modified for better use
of new full-width/kern/smush alternatives, but default output is NOT changed.",
        font.comments
    );

    let one_font = font.fonts.get(&70); // F
    assert!(one_font.is_some());

    let one_font = one_font.unwrap();
    assert_eq!(70, one_font.code);
    assert_eq!(8, one_font.width);

    assert_eq!(6, one_font.characters.len());
    assert_eq!("  _____ ", one_font.characters.get(0).unwrap());
    assert_eq!(" |  ___|", one_font.characters.get(1).unwrap());
    assert_eq!(" | |_   ", one_font.characters.get(2).unwrap());
    assert_eq!(" |  _|  ", one_font.characters.get(3).unwrap());
    assert_eq!(" |_|    ", one_font.characters.get(4).unwrap());
    assert_eq!("        ", one_font.characters.get(5).unwrap());
}

#[test]
fn standard_font_has_every_required_glyph() {
    let font = FIGfont::standand().unwrap();
    assert_eq!(102, font.fonts.len());
    for code in (32u32..=126).chain([196, 214, 220, 228, 246, 252, 223]) {
        let g = font.fonts.get(&code).unwrap();
        assert_eq!(6, g.characters.len());
        for row in &g.characters {
            assert_eq!(g.width as usize, row.chars().count());
            assert!(!row.contains('$'));
        }
    }
}

#[test]
fn hardblanks_become_spaces() {
    let font = FIGfont::standand().unwrap();
    let space = font.fonts.get(&32).unwrap();
    assert_eq!(2, space.width);
    for row in &space.characters {
        assert_eq!("  ", row);
    }
}

#[test]
fn last_row_loses_two_end_marks() {
    let text = "flf2a$ 2 1 4 0 0\nab$@\ncd@@\n";
    let font = FIGfont::from_content(text).unwrap();
    let g = font.fonts.get(&32).unwrap();
    assert_eq!(vec!["ab ".to_string(), "cd".to_string()], g.characters);
    assert_eq!(3, g.width);
    assert_eq!(2, g.height);
    assert_eq!(1, font.fonts.len());
}

#[test]
fn single_row_glyphs_lose_one_end_mark() {
    let font = FIGfont::from_content(&tiny_font("")).unwrap();
    assert_eq!("a comment", font.comments);
    assert_eq!(102, font.fonts.len());
    assert_eq!(vec!["c000".to_string()], font.fonts.get(&32).unwrap().characters);
    assert_eq!(vec!["c094".to_string()], font.fonts.get(&126).unwrap().characters);
    assert_eq!(vec!["c101".to_string()], font.fonts.get(&223).unwrap().characters);
}

#[test]
fn codetag_codes_in_hex_octal_and_decimal() {
    let font = FIGfont::from_content(&tiny_font(
        "0x4E  LATIN N\nhex@\n012\noct@\n65\ndec@\n0X1F600 face\nbig@\n0\nnul@\n",
    ))
    .unwrap();
    assert_eq!(vec!["hex".to_string()], font.fonts.get(&78).unwrap().characters);
    assert_eq!(78, font.fonts.get(&78).unwrap().code);
    assert_eq!(vec!["oct".to_string()], font.fonts.get(&10).unwrap().characters);
    assert_eq!(vec!["dec".to_string()], font.fonts.get(&65).unwrap().characters);
    assert_eq!(vec!["big".to_string()], font.fonts.get(&0x1F600).unwrap().characters);
    assert_eq!(vec!["nul".to_string()], font.fonts.get(&0).unwrap().characters);
    // 78 and 65 replace required glyphs; 10, 0x1F600 and 0 are new.
    assert_eq!(105, font.fonts.len());
}

#[test]
fn codetag_section_of_wrong_length_is_malformed() {
    let err = FIGfont::from_content(&tiny_font("0x4E\nhex@\n0x4F\n")).err().unwrap();
    assert_eq!(FontError::MalformedCodetagSection, err);
}

#[test]
fn unreadable_tag_code_is_rejected() {
    let err = FIGfont::from_content(&tiny_font("zz\nbad@\n")).err().unwrap();
    assert_eq!(FontError::InvalidCodetagCode, err);
    let err = FIGfont::from_content(&tiny_font("09\nbad@\n")).err().unwrap();
    assert_eq!(FontError::InvalidCodetagCode, err);
    let err = FIGfont::from_content(&tiny_font("0x\nbad@\n")).err().unwrap();
    assert_eq!(FontError::InvalidCodetagCode, err);
}

#[test]
fn missing_comment_lines_truncate_the_file() {
    let err = FIGfont::from_content("flf2a$ 1 0 4 0 3\nonly one\n").err().unwrap();
    assert_eq!(FontError::TruncatedFile, err);
}

#[test]
fn glyph_cut_off_by_the_end_of_file_is_truncated() {
    let err = FIGfont::from_content("flf2a$ 3 0 4 0 0\nab@\ncd@\n").err().unwrap();
    assert_eq!(FontError::TruncatedFile, err);
}

#[test]
fn short_glyph_row_is_rejected() {
    let err = FIGfont::from_content("flf2a$ 2 0 4 0 0\nab@\nc@\n").err().unwrap();
    assert_eq!(FontError::GlyphRowTooShort, err);
}

#[test]
fn empty_text_or_bad_height_is_malformed() {
    assert_eq!(FontError::MalformedHeader, FIGfont::from_content("").err().unwrap());
    assert_eq!(
        FontError::MalformedHeader,
        FIGfont::from_content("flf2a$ 0 0 4 0 0\n").err().unwrap()
    );
    assert_eq!(
        FontError::MalformedHeader,
        FIGfont::from_content("flf2a$ 1 0 4 0 -1\n").err().unwrap()
    );
}

#[test]
fn later_glyph_replaces_earlier_one() {
    let font = FIGfont::from_content(&tiny_font("32\nnew@\n32\nnewer@\n")).unwrap();
    assert_eq!(vec!["newer".to_string()], font.fonts.get(&32).unwrap().characters);
    assert_eq!(102, font.fonts.len());
}

#[test]
fn crlf_line_endings_are_accepted() {
    let font = FIGfont::from_content("flf2a$ 1 0 4 0 1\r\nnote\r\nab@\r\n").unwrap();
    assert_eq!("note", font.comments);
    assert_eq!("flf2a$ 1 0 4 0 1", font.header_line.header_line);
    assert_eq!(vec!["ab".to_string()], font.fonts.get(&32).unwrap().characters);
}

#[test]
fn glyph_text_joins_rows() {
    let font = FIGfont::standand().unwrap();
    let l = font.fonts.get(&('l' as u32)).unwrap();
    assert_eq!("  _ \n | |\n | |\n | |\n |_|\n    ", l.to_text());
}

#[test]
fn short_row_before_the_end_of_file_is_too_short() {
    let err = FIGfont::from_content("flf2a$ 2 0 4 0 0\na").err().unwrap();
    assert_eq!(FontError::GlyphRowTooShort, err);
}

#[test]
fn header_with_five_unicode_separated_tokens_is_malformed() {
    let err = FIGfont::from_content("aaaaa$ 1 1 1 1 \u{A0}\n").err().unwrap();
    assert_eq!(FontError::MalformedHeader, err);
}
