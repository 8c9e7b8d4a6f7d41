use songsheet::{
    add_formatted_text, tr_formatted_text, tr_meta_block, tr_meta_entry, tr_song, tr_verse, Error,
    ErrorKind, FormattedText, Item, Line, Metadata, Sexp, Song, Span, Style, Verse,
};

fn form<'a>(keyword: &'a str, items: Vec<Item<'a>>) -> Item<'a> {
    Item::Sexp(Sexp { keyword, items })
}

fn line<'a>(indent: &'a str, items: Vec<Item<'a>>) -> Line<'a> {
    Line { indent, items }
}

fn text_line<'a>(indent: &'a str, text: &'a str) -> Line<'a> {
    line(indent, vec![Item::Text(text)])
}

fn plain(text: &str, indent: usize) -> FormattedText {
    FormattedText { text: text.to_string(), formatting: vec![], indent }
}

fn italic(start: usize, end: usize) -> Span {
    Span { start, end, style: Style::Italic }
}

fn title_block<'a>(title: &'a str) -> Vec<Line<'a>> {
    vec![line("", vec![form("title", vec![Item::Text(title)])])]
}

fn kind_of<T: std::fmt::Debug>(r: Result<T, Error>) -> ErrorKind {
    r.unwrap_err().kind
}

#[test]
fn title_and_one_plain_verse() {
    let verse = vec![
        text_line("", "Amazing grace, how sweet the sound"),
        text_line("", "That saved a wretch like me"),
    ];
    let song = tr_song(&vec![title_block("Amazing Grace"), verse]).unwrap();
    assert_eq!(song.meta, vec![Metadata::Title(plain("Amazing Grace", 0))]);
    assert_eq!(
        song.verses,
        vec![Verse::Normal(vec![
            plain("Amazing grace, how sweet the sound", 0),
            plain("That saved a wretch like me", 0),
        ])]
    );
}

#[test]
fn chorus_marker_line_opens_a_chorus() {
    let verse = vec![
        line("", vec![Item::Text("  "), form("Chorus:", vec![]), Item::Text(" \t")]),
        text_line("", "Glory, glory, hallelujah"),
        text_line("", "His truth is marching on"),
    ];
    let song = tr_song(&vec![title_block("Battle Hymn"), verse]).unwrap();
    assert_eq!(
        song.verses,
        vec![Verse::ChorusDef(
            "Chorus".to_string(),
            vec![plain("Glory, glory, hallelujah", 0), plain("His truth is marching on", 0)],
        )]
    );
}

#[test]
fn chorus_reference_owns_no_lines() {
    let first = vec![
        line("", vec![form("Chorus:", vec![])]),
        text_line("", "Glory, glory, hallelujah"),
    ];
    let second = vec![text_line("", "I have seen him in the watch-fires")];
    let third = vec![line("", vec![form("Chorus", vec![])])];
    let song = tr_song(&vec![title_block("Battle Hymn"), first, second, third]).unwrap();
    assert_eq!(song.verses.len(), 3);
    assert_eq!(song.verses[2], Verse::ChorusRef("Chorus".to_string()));
}

#[test]
fn keyword_outside_the_table_is_unrecognized() {
    let sexp = Sexp { keyword: "composer", items: vec![Item::Text("Anon")] };
    let e = tr_meta_entry(&sexp).unwrap_err();
    assert_eq!(e.kind, ErrorKind::UnrecognizedKeyword);
    assert_eq!(e.subject, "composer");

    let block = vec![line(
        "",
        vec![form("title", vec![Item::Text("T")]), Item::Text(" "), form("composer", vec![])],
    )];
    let e = tr_meta_block(&block).unwrap_err();
    assert_eq!(e.kind, ErrorKind::UnrecognizedKeyword);
    assert_eq!(e.subject, "composer");

    let e = tr_song(&vec![block]).unwrap_err();
    assert_eq!(e.kind, ErrorKind::UnrecognizedKeyword);
}

#[test]
fn keywords_are_case_sensitive() {
    let sexp = Sexp { keyword: "Title", items: vec![Item::Text("T")] };
    assert_eq!(kind_of(tr_meta_entry(&sexp)), ErrorKind::UnrecognizedKeyword);
    let sexp = Sexp { keyword: "Todo", items: vec![] };
    assert_eq!(kind_of(tr_meta_entry(&sexp)), ErrorKind::UnrecognizedKeyword);
}

#[test]
fn an_earlier_failure_comes_first() {
    let block = vec![line(
        "",
        vec![form("descant", vec![Item::Text("x")]), form("composer", vec![])],
    )];
    let e = tr_meta_block(&block).unwrap_err();
    assert_eq!(e.kind, ErrorKind::WrongArity);
    assert_eq!(e.subject, "descant");
}

#[test]
fn descant_takes_no_children() {
    let sexp = Sexp { keyword: "descant", items: vec![Item::Text("soprano")] };
    let e = tr_meta_entry(&sexp).unwrap_err();
    assert_eq!(e.kind, ErrorKind::WrongArity);
    assert_eq!(e.subject, "descant");

    let sexp = Sexp { keyword: "descant", items: vec![] };
    assert_eq!(tr_meta_entry(&sexp).unwrap(), Metadata::Descant);

    let block = vec![line("", vec![form("descant", vec![form("italic", vec![])])])];
    assert_eq!(kind_of(tr_song(&vec![block])), ErrorKind::WrongArity);
}

#[test]
fn ellipsis_takes_no_children() {
    let items = vec![Item::Text("wait"), form("...", vec![Item::Text("x")])];
    let e = tr_formatted_text(&items).unwrap_err();
    assert_eq!(e.kind, ErrorKind::WrongArity);
    assert_eq!(e.subject, "...");

    let nested = vec![form("italic", vec![form("note", vec![form("...", vec![form("...", vec![])])])])];
    assert_eq!(kind_of(tr_formatted_text(&nested)), ErrorKind::WrongArity);
}

#[test]
fn ellipsis_becomes_one_character() {
    let items = vec![Item::Text("and so on"), form("...", vec![])];
    let ft = tr_formatted_text(&items).unwrap();
    assert_eq!(ft, plain("and so on\u{2026}", 0));
    assert_eq!(ft.text.chars().count(), 10);
}

#[test]
fn lone_chorus_marker_takes_the_lines_after_it() {
    let block = vec![
        line("    ", vec![form("Chorus:", vec![])]),
        line("", vec![Item::Text("Sing "), form("italic", vec![Item::Text("out")])]),
    ];
    let verse = tr_verse(&block).unwrap();
    assert_eq!(
        verse,
        Verse::ChorusDef(
            "Chorus".to_string(),
            vec![FormattedText { text: "Sing out".to_string(), formatting: vec![italic(5, 8)], indent: 0 }],
        )
    );
}

#[test]
fn chorus_marker_with_a_failing_body_fails() {
    let block = vec![
        line("", vec![form("Chorus:", vec![])]),
        line("", vec![form("bold", vec![Item::Text("x")])]),
    ];
    let e = tr_verse(&block).unwrap_err();
    assert_eq!(e.kind, ErrorKind::UnrecognizedFormatting);
    assert_eq!(e.subject, "bold");
}

#[test]
fn refrain_marker_opens_a_refrain() {
    let block = vec![line("", vec![form("Refrain:", vec![])]), text_line("", "Hallelujah")];
    assert_eq!(
        tr_verse(&block).unwrap(),
        Verse::RefrainDef("Refrain".to_string(), vec![plain("Hallelujah", 0)])
    );
    let alone = vec![line("", vec![form("Refrain:", vec![])])];
    assert_eq!(tr_verse(&alone).unwrap(), Verse::RefrainDef("Refrain".to_string(), vec![]));
}

#[test]
fn refrain_reference_carries_its_label() {
    let block = vec![line("", vec![Item::Text(" "), form("refrain", vec![Item::Text("Gloria")])])];
    assert_eq!(tr_verse(&block).unwrap(), Verse::ChorusRef("Gloria".to_string()));
}

#[test]
fn section_break_carries_its_label() {
    let block = vec![line("", vec![form("section-break", vec![Item::Text("Deutsch")])])];
    assert_eq!(tr_verse(&block).unwrap(), Verse::SectionBreak("Deutsch".to_string()));
}

#[test]
fn lines_after_a_chorus_reference_are_translated_and_dropped() {
    let fine = vec![line("", vec![form("Chorus", vec![])]), text_line("", "again")];
    assert_eq!(tr_verse(&fine).unwrap(), Verse::ChorusRef("Chorus".to_string()));

    let failing = vec![
        line("", vec![form("Chorus", vec![])]),
        line("", vec![form("bold", vec![])]),
    ];
    assert_eq!(kind_of(tr_verse(&failing)), ErrorKind::UnrecognizedFormatting);
}

#[test]
fn lines_after_a_labelled_reference_are_passed_over() {
    let block = vec![
        line("", vec![form("refrain", vec![Item::Text("Gloria")])]),
        line("", vec![form("bold", vec![])]),
    ];
    assert_eq!(tr_verse(&block).unwrap(), Verse::ChorusRef("Gloria".to_string()));
    let block = vec![
        line("", vec![form("section-break", vec![Item::Text("II")])]),
        line("", vec![form("bold", vec![])]),
    ];
    assert_eq!(tr_verse(&block).unwrap(), Verse::SectionBreak("II".to_string()));
}

#[test]
fn marker_beside_other_content_is_no_marker() {
    let block = vec![line("", vec![form("Chorus:", vec![]), Item::Text("and more")])];
    let e = tr_verse(&block).unwrap_err();
    assert_eq!(e.kind, ErrorKind::UnrecognizedFormatting);
    assert_eq!(e.subject, "Chorus:");

    let two = vec![line("", vec![form("Chorus", vec![]), form("Chorus", vec![])])];
    assert_eq!(kind_of(tr_verse(&two)), ErrorKind::UnrecognizedFormatting);
}

#[test]
fn marker_with_wrong_arity_is_no_marker() {
    let block = vec![line("", vec![form("Chorus:", vec![Item::Text("x")])])];
    let e = tr_verse(&block).unwrap_err();
    assert_eq!(e.kind, ErrorKind::UnrecognizedFormatting);
    assert_eq!(e.subject, "Chorus:");

    let block = vec![line("", vec![form("refrain", vec![])])];
    let e = tr_verse(&block).unwrap_err();
    assert_eq!(e.kind, ErrorKind::UnrecognizedFormatting);
    assert_eq!(e.subject, "refrain");

    let block = vec![line("", vec![form("section-break", vec![form("italic", vec![])])])];
    assert_eq!(kind_of(tr_verse(&block)), ErrorKind::UnrecognizedFormatting);

    let block = vec![line(
        "",
        vec![form("refrain", vec![Item::Text("a"), Item::Text("b")])],
    )];
    assert_eq!(kind_of(tr_verse(&block)), ErrorKind::UnrecognizedFormatting);
}

#[test]
fn blank_first_line_makes_a_normal_verse() {
    let block = vec![line("", vec![Item::Text("   ")]), text_line("", "words")];
    assert_eq!(
        tr_verse(&block).unwrap(),
        Verse::Normal(vec![plain("   ", 0), plain("words", 0)])
    );
    let empty = vec![line("", vec![])];
    assert_eq!(tr_verse(&empty).unwrap(), Verse::Normal(vec![plain("", 0)]));
}

#[test]
fn italic_forms_open_spans_in_bytes() {
    let items = vec![
        Item::Text("só "),
        form("italic", vec![Item::Text("é")]),
        Item::Text(" "),
        form("note", vec![Item::Text("n")]),
        form("footnote", vec![Item::Text("f")]),
    ];
    let ft = tr_formatted_text(&items).unwrap();
    assert_eq!(ft.text, "só é nf");
    assert_eq!(ft.formatting, vec![italic(4, 6), italic(7, 8), italic(8, 9)]);
    assert_eq!(ft.indent, 0);
}

#[test]
fn nested_spans_come_inner_first() {
    let items = vec![
        Item::Text("a"),
        form(
            "italic",
            vec![Item::Text("b"), form("note", vec![Item::Text("c")]), Item::Text("d")],
        ),
        form("italic", vec![]),
    ];
    let ft = tr_formatted_text(&items).unwrap();
    assert_eq!(ft.text, "abcd");
    assert_eq!(ft.formatting, vec![italic(2, 3), italic(1, 4), italic(4, 4)]);
}

#[test]
fn unknown_formatting_command_fails() {
    let items = vec![form("italic", vec![form("title", vec![])])];
    let e = tr_formatted_text(&items).unwrap_err();
    assert_eq!(e.kind, ErrorKind::UnrecognizedFormatting);
    assert_eq!(e.subject, "title");
}

#[test]
fn text_in_the_metadata_block_fails() {
    let block = vec![line("", vec![Item::Text(" \n"), Item::Text("stray")])];
    let e = tr_meta_block(&block).unwrap_err();
    assert_eq!(e.kind, ErrorKind::TextInMetadata);
    assert_eq!(e.subject, "stray");
}

#[test]
fn blank_text_in_the_metadata_block_is_passed_over() {
    let block = vec![
        line("", vec![Item::Text(" "), form("title", vec![Item::Text("A")]), Item::Text("\t")]),
        line("  ", vec![]),
        line("", vec![Item::Text("\u{a0}\u{2003}"), form("descant", vec![])]),
    ];
    assert_eq!(
        tr_meta_block(&block).unwrap(),
        vec![Metadata::Title(plain("A", 0)), Metadata::Descant]
    );
    assert_eq!(tr_meta_block(&vec![]).unwrap(), vec![]);
}

#[test]
fn text_keywords_want_one_text_child() {
    for keyword in ["category", "index", "lang", "dance"] {
        let sexp = Sexp { keyword, items: vec![] };
        let e = tr_meta_entry(&sexp).unwrap_err();
        assert_eq!(e.kind, ErrorKind::WrongArity);
        assert_eq!(e.subject, keyword);

        let sexp = Sexp { keyword, items: vec![Item::Text("a"), Item::Text("b")] };
        assert_eq!(kind_of(tr_meta_entry(&sexp)), ErrorKind::WrongArity);

        let sexp = Sexp { keyword, items: vec![form("italic", vec![Item::Text("a")])] };
        let e = tr_meta_entry(&sexp).unwrap_err();
        assert_eq!(e.kind, ErrorKind::ExpectedText);
        assert_eq!(e.subject, keyword);
    }
}

#[test]
fn text_keywords_keep_their_text_as_it_is() {
    let entry = |keyword| tr_meta_entry(&Sexp { keyword, items: vec![Item::Text(" Folk  ")] }).unwrap();
    assert_eq!(entry("category"), Metadata::Category(" Folk  ".to_string()));
    assert_eq!(entry("index"), Metadata::IndexEntry(" Folk  ".to_string()));
    assert_eq!(entry("lang"), Metadata::Language(" Folk  ".to_string()));
    assert_eq!(entry("dance"), Metadata::Dance(" Folk  ".to_string()));
}

#[test]
fn formatted_keywords_and_their_synonyms() {
    let items = || vec![Item::Text("The "), form("italic", vec![Item::Text("Ash")]), Item::Text(" Grove")];
    let ft = || FormattedText {
        text: "The Ash Grove".to_string(),
        formatting: vec![italic(4, 7)],
        indent: 0,
    };
    let entry = |keyword| tr_meta_entry(&Sexp { keyword, items: items() }).unwrap();
    assert_eq!(entry("title"), Metadata::Title(ft()));
    assert_eq!(entry("white-book"), Metadata::Title(ft()));
    assert_eq!(entry("white-book-title"), Metadata::Title(ft()));
    assert_eq!(entry("alt-title"), Metadata::AltTitle(ft()));
    assert_eq!(entry("attrib"), Metadata::Attrib(ft()));
    assert_eq!(entry("author"), Metadata::Attrib(ft()));
    assert_eq!(entry("ref"), Metadata::CrossRef(ft()));
    assert_eq!(entry("xref"), Metadata::CrossRef(ft()));
}

#[test]
fn ignored_keywords_have_no_effect() {
    for keyword in [
        "numbered-verses",
        "todo",
        "TODO",
        "TODO-special-formatting",
        "note",
        "ignore-this-file",
        "inline-chorus-markers",
        "inline-chorus",
        "white-book-note",
        "origin",
        "source",
    ] {
        let sexp = Sexp { keyword, items: vec![form("anything", vec![]), Item::Text("at all")] };
        assert_eq!(tr_meta_entry(&sexp).unwrap(), Metadata::Ignored);
    }
}

#[test]
fn a_failure_in_a_title_is_a_failure_of_the_song() {
    let block = vec![line("", vec![form("title", vec![form("...", vec![Item::Text("x")])])])];
    let e = tr_song(&vec![block]).unwrap_err();
    assert_eq!(e.kind, ErrorKind::WrongArity);
    assert_eq!(e.subject, "...");
}

#[test]
fn a_failure_in_a_verse_is_a_failure_of_the_song() {
    let good = vec![text_line("", "fine")];
    let bad = vec![text_line("", "fine"), line("", vec![form("underline", vec![])])];
    let later = vec![line("", vec![form("strike", vec![])])];
    let e = tr_song(&vec![title_block("T"), good, bad, later]).unwrap_err();
    assert_eq!(e.kind, ErrorKind::UnrecognizedFormatting);
    assert_eq!(e.subject, "underline");
}

#[test]
fn a_song_of_metadata_alone() {
    let song = tr_song(&vec![title_block("Only a title")]).unwrap();
    assert_eq!(song, Song { meta: vec![Metadata::Title(plain("Only a title", 0))], verses: vec![] });
}

#[test]
fn verses_keep_their_order() {
    let blocks = vec![
        title_block("T"),
        vec![text_line("", "one")],
        vec![line("", vec![form("section-break", vec![Item::Text("II")])])],
        vec![text_line("", "two")],
    ];
    let song = tr_song(&blocks).unwrap();
    assert_eq!(
        song.verses,
        vec![
            Verse::Normal(vec![plain("one", 0)]),
            Verse::SectionBreak("II".to_string()),
            Verse::Normal(vec![plain("two", 0)]),
        ]
    );
}

#[test]
fn text_is_appended_to_what_the_buffer_holds() {
    let mut ft = FormattedText { text: "é ".to_string(), formatting: vec![italic(0, 2)], indent: 3 };
    let items = vec![Item::Text("a"), form("italic", vec![Item::Text("b")])];
    add_formatted_text(&items, &mut ft).unwrap();
    assert_eq!(
        ft,
        FormattedText {
            text: "é ab".to_string(),
            formatting: vec![italic(0, 2), italic(4, 5)],
            indent: 3,
        }
    );
}

#[test]
fn a_failure_leaves_what_the_buffer_held() {
    let mut ft = FormattedText { text: "é ".to_string(), formatting: vec![italic(0, 2)], indent: 3 };
    let items = vec![
        Item::Text("a"),
        form("italic", vec![Item::Text("b"), form("note", vec![Item::Text("c")]), form("bold", vec![])]),
        Item::Text("never"),
    ];
    let e = add_formatted_text(&items, &mut ft).unwrap_err();
    assert_eq!(e.kind, ErrorKind::UnrecognizedFormatting);
    assert!(ft.text.starts_with("é "));
    assert_eq!(ft.text, "é abc");
    assert_eq!(ft.formatting, vec![italic(0, 2), italic(5, 6)]);
    assert_eq!(ft.indent, 3);
}
