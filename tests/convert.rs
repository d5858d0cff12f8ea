use figlet_rs::FIGfont;

#[test]
fn convert_message() {
    let standard_font = FIGfont::standand().unwrap();
    let figure = standard_font.convert("hello");
    assert!(figure.is_some());
}

#[test]
fn test_convert() {
    let standard_font = FIGfont::standand();
    assert!(standard_font.is_ok());
    let standard_font = standard_font.unwrap();

    let figure = standard_font.convert("FIGlet");
    assert!(figure.is_some());

    let figure = figure.unwrap();
    assert_eq!(6, figure.height);
    assert_eq!(6, figure.characters.len());

    let f = figure.characters.get(0).unwrap();
    assert_eq!(figure.height, f.height);
    assert_eq!(8, f.width);
    assert_eq!("  _____ ", f.characters.get(0).unwrap());
    assert_eq!(" |  ___|", f.characters.get(1).unwrap());
    assert_eq!(" | |_   ", f.characters.get(2).unwrap());
    assert_eq!(" |  _|  ", f.characters.get(3).unwrap());
    assert_eq!(" |_|    ", f.characters.get(4).unwrap());
    assert_eq!("        ", f.characters.get(5).unwrap());

    let i = figure.characters.get(1).unwrap();
    assert_eq!(figure.height, i.height);
    assert_eq!(6, i.width);
    assert_eq!("  ___ ", i.characters.get(0).unwrap());
    assert_eq!(" |_ _|", i.characters.get(1).unwrap());
    assert_eq!("  | | ", i.characters.get(2).unwrap());
    assert_eq!("  | | ", i.characters.get(3).unwrap());
    assert_eq!(" |___|", i.characters.get(4).unwrap());
    assert_eq!("      ", i.characters.get(5).unwrap());

    let g = figure.characters.get(2).unwrap();
    assert_eq!(figure.height, g.height);
    assert_eq!(8, g.width);
    assert_eq!(r"   ____ ", g.characters.get(0).unwrap());
    assert_eq!(r"  / ___|", g.characters.get(1).unwrap());
    assert_eq!(r" | |  _ ", g.characters.get(2).unwrap());
    assert_eq!(r" | |_| |", g.characters.get(3).unwrap());
    assert_eq!(r"  \____|", g.characters.get(4).unwrap());
    assert_eq!(r"        ", g.characters.get(5).unwrap());

    let l = figure.characters.get(3).unwrap();
    assert_eq!(figure.height, l.height);
    assert_eq!(4, l.width);
    assert_eq!("  _ ", l.characters.get(0).unwrap());
    assert_eq!(" | |", l.characters.get(1).unwrap());
    assert_eq!(" | |", l.characters.get(2).unwrap());
    assert_eq!(" | |", l.characters.get(3).unwrap());
    assert_eq!(" |_|", l.characters.get(4).unwrap());
    assert_eq!("    ", l.characters.get(5).unwrap());

    let e = figure.characters.get(4).unwrap();
    assert_eq!(figure.height, e.height);
    assert_eq!(7, e.width);
    assert_eq!(r"       ", e.characters.get(0).unwrap());
    assert_eq!(r"   ___ ", e.characters.get(1).unwrap());
    assert_eq!(r"  / _ \", e.characters.get(2).unwrap());
    assert_eq!(r" |  __/", e.characters.get(3).unwrap());
    assert_eq!(r"  \___|", e.characters.get(4).unwrap());
    assert_eq!(r"       ", e.characters.get(5).unwrap());

    let t = figure.characters.get(5).unwrap();
    assert_eq!(figure.height, t.height);
    assert_eq!(6, t.width);
    assert_eq!(r"  _   ", t.characters.get(0).unwrap());
    assert_eq!(r" | |_ ", t.characters.get(1).unwrap());
    assert_eq!(r" | __|", t.characters.get(2).unwrap());
    assert_eq!(r" | |_ ", t.characters.get(3).unwrap());
    assert_eq!(r"  \__|", t.characters.get(4).unwrap());
    assert_eq!(r"      ", t.characters.get(5).unwrap());
}

#[test]
fn empty_message_gives_no_figure() {
    let font = FIGfont::standand().unwrap();
    assert!(font.convert("").is_none());
}

#[test]
fn unsupported_characters_are_dropped() {
    let font = FIGfont::standand().unwrap();
    assert!(font.convert("\u{1F600}\u{4E2D}").is_none());
    let figure = font.convert("l\u{1F600}l").unwrap();
    assert_eq!(2, figure.characters.len());
    assert_eq!(108, figure.characters[0].code);
    assert_eq!(108, figure.characters[1].code);
}

#[test]
fn figure_text_places_glyphs_side_by_side() {
    let font = FIGfont::standand().unwrap();
    let figure = font.convert("lI").unwrap();
    assert_eq!(
        "  _   ___ \n | | |_ _|\n | |  | | \n | |  | | \n |_| |___|\n          \n",
        figure.to_text()
    );
}

#[test]
fn rendering_twice_gives_the_same_text() {
    let font = FIGfont::standand().unwrap();
    let a = font.convert("FIGlet").unwrap().to_text();
    let b = font.convert("FIGlet").unwrap().to_text();
    assert_eq!(a, b);
    assert_eq!(6, a.lines().count());
}
