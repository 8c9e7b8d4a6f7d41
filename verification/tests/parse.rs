use songsheet::{
    items_read_back, items_to_text, parse_song, read_song, tr_song, write_items, Error, ErrorKind,
    Flaw, FormattedText, Item, Line, Metadata, ParseError, ReadError, Sexp, Song, Span, Style,
    Verse,
};

fn text(s: &str) -> Item<'_> {
    Item::Text(s)
}

fn form<'a>(keyword: &'a str, items: Vec<Item<'a>>) -> Item<'a> {
    Item::Sexp(Sexp { keyword, items })
}

fn line<'a>(indent: &'a str, items: Vec<Item<'a>>) -> Line<'a> {
    Line { indent, items }
}

fn same(got: &[Vec<Line>], want: &[Vec<Line>]) {
    assert_eq!(got, want);
}

fn plain(text: &str, indent: usize) -> FormattedText {
    FormattedText { text: text.to_string(), formatting: vec![], indent }
}

#[test]
fn blocks_are_parted_by_blank_lines() {
    let doc = parse_song("⟦title Amazing Grace⟧\n\nAmazing grace\nhow sweet\n   \n\nthe sound\n").unwrap();
    same(
        &doc,
        &[
            vec![line("", vec![form("title", vec![text("Amazing Grace")])])],
            vec![line("", vec![text("Amazing grace")]), line("", vec![text("how sweet")])],
            vec![line("", vec![text("the sound")])],
        ],
    );
}

#[test]
fn an_empty_text_has_no_blocks() {
    same(&parse_song("").unwrap(), &[]);
    same(&parse_song("\n\n  \n\t\n").unwrap(), &[]);
    same(&parse_song("   ").unwrap(), &[]);
}

#[test]
fn a_last_line_needs_no_line_end() {
    same(&parse_song("a\nb").unwrap(), &[vec![line("", vec![text("a")]), line("", vec![text("b")])]]);
    same(&parse_song("a\nb\n").unwrap(), &[vec![line("", vec![text("a")]), line("", vec![text("b")])]]);
    same(&parse_song("\n\na").unwrap(), &[vec![line("", vec![text("a")])]]);
}

#[test]
fn leading_white_space_is_the_indent() {
    let doc = parse_song("    four\n\tone tab \n\u{3000}wide⟦italic x⟧").unwrap();
    same(
        &doc,
        &[vec![
            line("    ", vec![text("four")]),
            line("\t", vec![text("one tab ")]),
            line("\u{3000}", vec![text("wide"), form("italic", vec![text("x")])]),
        ]],
    );
}

#[test]
fn forms_nest() {
    let doc = parse_song("⟦title The ⟦italic Ash ⟦note tree⟧⟧ Grove⟧ ⟦descant⟧").unwrap();
    same(
        &doc,
        &[vec![line(
            "",
            vec![
                form(
                    "title",
                    vec![
                        text("The "),
                        form("italic", vec![text("Ash "), form("note", vec![text("tree")])]),
                        text(" Grove"),
                    ],
                ),
                text(" "),
                form("descant", vec![]),
            ],
        )]],
    );
}

#[test]
fn one_character_of_white_space_follows_the_keyword() {
    let doc = parse_song("⟦a  two⟧⟦b\tx⟧⟦c ⟧⟦d⟧⟦e⟦f⟧⟧⟦ g⟧⟦⟧").unwrap();
    same(
        &doc,
        &[vec![line(
            "",
            vec![
                form("a", vec![text(" two")]),
                form("b", vec![text("x")]),
                form("c", vec![]),
                form("d", vec![]),
                form("e", vec![form("f", vec![])]),
                form("", vec![text("g")]),
                form("", vec![]),
            ],
        )]],
    );
}

#[test]
fn a_form_must_close_on_its_line() {
    assert_eq!(parse_song("⟦title Amazing"), Err(ParseError { flaw: Flaw::Unclosed, at: 0 }));
    assert_eq!(
        parse_song("ab ⟦title Amazing\nGrace⟧"),
        Err(ParseError { flaw: Flaw::Unclosed, at: 3 })
    );
    assert_eq!(parse_song("⟦a ⟦b⟧"), Err(ParseError { flaw: Flaw::Unclosed, at: 0 }));
    assert_eq!(parse_song("⟦a⟧⟦b ⟦c⟧"), Err(ParseError { flaw: Flaw::Unclosed, at: 3 }));
    assert_eq!(parse_song("é\n ⟦"), Err(ParseError { flaw: Flaw::Unclosed, at: 3 }));
}

#[test]
fn a_closing_bracket_must_close_a_form() {
    assert_eq!(parse_song("⟧"), Err(ParseError { flaw: Flaw::StrayClose, at: 0 }));
    assert_eq!(parse_song("one\ntwo ⟦a⟧⟧"), Err(ParseError { flaw: Flaw::StrayClose, at: 11 }));
    assert_eq!(parse_song("⟦a⟧\n\n  x⟧⟦"), Err(ParseError { flaw: Flaw::StrayClose, at: 8 }));
}

#[test]
fn the_first_flaw_is_reported() {
    assert_eq!(parse_song("⟦a\n⟧"), Err(ParseError { flaw: Flaw::Unclosed, at: 0 }));
    assert_eq!(parse_song("x⟧ ⟦a"), Err(ParseError { flaw: Flaw::StrayClose, at: 1 }));
}

#[test]
fn a_form_written_out_parses_to_itself() {
    let title = Sexp {
        keyword: "title",
        items: vec![
            text("The "),
            form("italic", vec![text("Ash")]),
            text(" Grove"),
            form("...", vec![]),
        ],
    };
    let written = title.to_text();
    assert_eq!(written, "⟦title The ⟦italic Ash⟧ Grove⟦... ⟧⟧");
    let doc = parse_song(&written).unwrap();
    same(&doc, &[vec![line("", vec![Item::Sexp(title)])]]);
}

#[test]
fn a_parsed_document_translates() {
    let source = "\
⟦title Amazing Grace⟧
⟦author John Newton⟧ ⟦lang en⟧

Amazing grace, how sweet the sound
    That saved a wretch like me

  ⟦Chorus:⟧  
Praise ⟦italic God⟧⟦...⟧

⟦Chorus⟧
";
    let doc = parse_song(source).unwrap();
    let song = tr_song(&doc).unwrap();
    assert_eq!(
        song.meta,
        vec![
            Metadata::Title(plain("Amazing Grace", 0)),
            Metadata::Attrib(plain("John Newton", 0)),
            Metadata::Language("en".to_string()),
        ]
    );
    assert_eq!(
        song.verses,
        vec![
            Verse::Normal(vec![
                plain("Amazing grace, how sweet the sound", 0),
                plain("That saved a wretch like me", 1),
            ]),
            Verse::ChorusDef(
                "Chorus".to_string(),
                vec![FormattedText {
                    text: "Praise God\u{2026}".to_string(),
                    formatting: vec![Span { start: 7, end: 10, style: Style::Italic }],
                    indent: 0,
                }],
            ),
            Verse::ChorusRef("Chorus".to_string()),
        ]
    );
}

#[test]
fn a_parsed_document_may_fail_to_translate() {
    let doc = parse_song("⟦title T⟧ stray\n\nverse").unwrap();
    let e = tr_song(&doc).unwrap_err();
    assert_eq!(e.kind, ErrorKind::TextInMetadata);
    assert_eq!(e.subject, " stray");
}

#[test]
fn a_song_is_read_from_its_text() {
    let song = read_song("⟦title Évening⟧\n\n  one\ntwo\n").unwrap();
    assert_eq!(
        song,
        Song {
            meta: vec![Metadata::Title(plain("Évening", 0))],
            verses: vec![Verse::Normal(vec![plain("one", 1), plain("two", 0)])],
        }
    );
}

#[test]
fn a_text_may_be_no_song() {
    assert_eq!(read_song(" \n\n"), Err(ReadError::Empty));
    assert_eq!(
        read_song("⟦title T⟧\n\n⟦italic x"),
        Err(ReadError::Parse(ParseError { flaw: Flaw::Unclosed, at: 11 }))
    );
    assert_eq!(
        read_song("⟦title T⟧\n\n⟦bold x⟧"),
        Err(ReadError::Translation(Error::new(ErrorKind::UnrecognizedFormatting, "bold")))
    );
    assert_eq!(
        read_song("verse first"),
        Err(ReadError::Translation(Error::new(ErrorKind::TextInMetadata, "verse first")))
    );
}

#[test]
fn items_that_read_back_are_written_and_parse_as_themselves() {
    let items = || {
        vec![
            text("The "),
            form("italic", vec![text("Ash"), form("note", vec![])]),
            text(" Grove"),
            form("...", vec![]),
            form("x", vec![text(" y")]),
        ]
    };
    assert!(items_read_back(&items()));
    let written = write_items(&items()).unwrap();
    assert_eq!(written, "The ⟦italic Ash⟦note ⟧⟧ Grove⟦... ⟧⟦x  y⟧");
    assert_eq!(written, items_to_text(&items()));
    assert_eq!(parse_song(&written).unwrap(), vec![vec![line("", items())]]);
    assert_eq!(write_items(&vec![]), Some(String::new()));
}

#[test]
fn items_that_would_not_read_back_are_not_written() {
    let cases: Vec<Vec<Item>> = vec![
        vec![text("")],
        vec![text("a"), text("b")],
        vec![text("a⟦b")],
        vec![text("a⟧")],
        vec![form("two words", vec![])],
        vec![form("a⟦", vec![])],
        vec![form("a\u{a0}b", vec![])],
        vec![form("ok", vec![text("fine"), form("in ner", vec![])])],
        vec![form("ok", vec![text("a"), text("b")])],
    ];
    for items in cases {
        assert!(!items_read_back(&items));
        assert_eq!(write_items(&items), None);
    }
    assert_eq!(items_to_text(&vec![text("a"), text("b")]), "ab");
}
