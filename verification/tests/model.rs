use songsheet::{
    str_eq, str_is_whitespace, verse_lines, verse_lines_mut, white_space_known, Error, ErrorKind,
    FormattedText, Heading, Item, LabelStyle, Metadata, Sexp, Song, Verse,
};

fn plain(text: &str, indent: usize) -> FormattedText {
    FormattedText { text: text.to_string(), formatting: vec![], indent }
}

#[test]
fn white_space_is_told_from_other_text() {
    assert!(str_is_whitespace(""));
    assert!(str_is_whitespace(" \t\r\n"));
    assert!(str_is_whitespace("\u{a0}\u{2003}\u{3000}"));
    assert!(!str_is_whitespace(" a "));
    assert!(!str_is_whitespace("\u{200b}"));
    assert!(!str_is_whitespace("   \u{8d8a}"));
}

#[test]
fn space_line_feed_and_no_break_space_are_white_space() {
    white_space_known();
    assert!(str_is_whitespace(" "));
    assert!(str_is_whitespace("\n"));
    assert!(str_is_whitespace("\u{a0}"));
    assert!(str_is_whitespace(" \n\u{a0} "));
}

#[test]
fn strings_are_equal_character_by_character() {
    assert!(str_eq("", ""));
    assert!(str_eq("title", "title"));
    assert!(!str_eq("title", "Title"));
    assert!(!str_eq("title", "titles"));
    assert!(!str_eq("ref", "xref"));
    assert!(str_eq("\u{27e6}\u{2026}", "\u{27e6}\u{2026}"));
    assert!(!str_eq("\u{27e6}", "\u{27e7}"));
}

#[test]
fn string_item_is_the_single_text_child() {
    let one = Sexp { keyword: "lang", items: vec![Item::Text("cy")] };
    assert_eq!(one.string_item().unwrap(), "cy");
    assert!(one.has_args());

    let none = Sexp { keyword: "lang", items: vec![] };
    let e = none.string_item().unwrap_err();
    assert_eq!((e.kind, e.subject.as_str()), (ErrorKind::WrongArity, "lang"));
    assert!(!none.has_args());

    let two = Sexp { keyword: "lang", items: vec![Item::Text("cy"), Item::Text("en")] };
    assert_eq!(two.string_item().unwrap_err().kind, ErrorKind::WrongArity);

    let form = Sexp { keyword: "lang", items: vec![Item::Sexp(Sexp { keyword: "cy", items: vec![] })] };
    let e = form.string_item().unwrap_err();
    assert_eq!((e.kind, e.subject.as_str()), (ErrorKind::ExpectedText, "lang"));
}

#[test]
fn a_form_is_written_out_in_brackets() {
    let inner = Sexp { keyword: "italic", items: vec![Item::Text("Ash")] };
    assert_eq!(inner.to_text(), "\u{27e6}italic Ash\u{27e7}");
    let outer = Sexp {
        keyword: "title",
        items: vec![Item::Text("The "), Item::Sexp(inner), Item::Text(" Grove")],
    };
    assert_eq!(outer.to_text(), "\u{27e6}title The \u{27e6}italic Ash\u{27e7} Grove\u{27e7}");
    let bare = Sexp { keyword: "descant", items: vec![] };
    assert_eq!(bare.to_text(), "\u{27e6}descant \u{27e7}");
}

#[test]
fn an_error_says_what_and_where() {
    let e = Error::new(ErrorKind::UnrecognizedKeyword, "composer");
    assert_eq!(e.kind, ErrorKind::UnrecognizedKeyword);
    assert_eq!(e.subject, "composer");
    assert_eq!(e.description(), "Unrecognized meta keyword");
    assert_eq!(e.message(), "Translation error: Unrecognized meta keyword: composer");
    assert_eq!(
        Error::new(ErrorKind::TextInMetadata, "stray").message(),
        "Translation error: Text in the meta block: stray"
    );
    assert_eq!(
        Error::new(ErrorKind::WrongArity, "descant").message(),
        "Translation error: Wrong number of arguments: descant"
    );
    assert_eq!(
        Error::new(ErrorKind::ExpectedText, "lang").message(),
        "Translation error: Expected string argument: lang"
    );
    assert_eq!(
        Error::new(ErrorKind::UnrecognizedFormatting, "bold").message(),
        "Translation error: Unrecognized formatting command: bold"
    );
}

#[test]
fn new_formatted_text_is_empty() {
    assert_eq!(FormattedText::new(), plain("", 0));
}

#[test]
fn the_title_is_the_first_title_entry() {
    let song = Song {
        meta: vec![
            Metadata::Ignored,
            Metadata::AltTitle(plain("Other", 0)),
            Metadata::Title(plain("Évening", 0)),
            Metadata::Title(plain("Second", 0)),
        ],
        verses: vec![],
    };
    assert_eq!(song.title(), Some(&plain("Évening", 0)));
    assert_eq!(song.file_letter(), Some('É'));
}

#[test]
fn a_song_may_lack_a_title() {
    let song = Song { meta: vec![Metadata::Descant], verses: vec![] };
    assert_eq!(song.title(), None);
    assert_eq!(song.file_letter(), None);
    let song = Song { meta: vec![Metadata::Title(plain("", 0))], verses: vec![] };
    assert_eq!(song.title(), Some(&plain("", 0)));
    assert_eq!(song.file_letter(), None);
}

#[test]
fn only_some_verses_own_lines() {
    let lines = vec![plain("a", 0)];
    assert_eq!(verse_lines(&Verse::Normal(vec![plain("a", 0)])), Some(&lines));
    assert_eq!(verse_lines(&Verse::ChorusDef("C".to_string(), vec![plain("a", 0)])), Some(&lines));
    assert_eq!(verse_lines(&Verse::RefrainDef("R".to_string(), vec![plain("a", 0)])), Some(&lines));
    assert_eq!(verse_lines(&Verse::ChorusRef("C".to_string())), None);
    assert_eq!(verse_lines(&Verse::SectionBreak("S".to_string())), None);
}

#[test]
fn owned_lines_can_be_changed_in_place() {
    let mut verse = Verse::ChorusDef("C".to_string(), vec![plain("a", 0)]);
    verse_lines_mut(&mut verse).unwrap().push(plain("b", 1));
    assert_eq!(verse, Verse::ChorusDef("C".to_string(), vec![plain("a", 0), plain("b", 1)]));
    let mut verse = Verse::SectionBreak("S".to_string());
    assert!(verse_lines_mut(&mut verse).is_none());
    assert_eq!(verse, Verse::SectionBreak("S".to_string()));
}

#[test]
fn headings_of_the_five_kinds_of_verse() {
    let heading = |text: &str, style| Some(Heading { text: text.to_string(), style });
    assert_eq!(Verse::Normal(vec![]).heading(), None);
    assert_eq!(
        Verse::ChorusDef("Chorus".to_string(), vec![]).heading(),
        heading("Chorus:", LabelStyle::Bold)
    );
    assert_eq!(
        Verse::RefrainDef("Refrain".to_string(), vec![]).heading(),
        heading("Refrain: ", LabelStyle::Bold)
    );
    assert_eq!(
        Verse::ChorusRef("Chorus".to_string()).heading(),
        heading("Chorus", LabelStyle::Italic)
    );
    assert_eq!(
        Verse::SectionBreak("Deutsch".to_string()).heading(),
        heading("Deutsch", LabelStyle::Italic)
    );
}
