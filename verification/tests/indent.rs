use songsheet::{normalize_indents, tr_song, FormattedText, Item, Line, Metadata, Sexp, Song, Verse};

fn plain(text: &str, indent: usize) -> FormattedText {
    FormattedText { text: text.to_string(), formatting: vec![], indent }
}

fn indents(song: &Song) -> Vec<Vec<usize>> {
    song.verses
        .iter()
        .map(|v| match v {
            Verse::Normal(lines) | Verse::ChorusDef(_, lines) | Verse::RefrainDef(_, lines) => {
                lines.iter().map(|l| l.indent).collect()
            }
            Verse::ChorusRef(_) | Verse::SectionBreak(_) => vec![],
        })
        .collect()
}

fn sample() -> Song {
    Song {
        meta: vec![Metadata::Title(plain("T", 7))],
        verses: vec![
            Verse::Normal(vec![plain("a", 4), plain("b", 0), plain("c", 8)]),
            Verse::ChorusRef("Chorus".to_string()),
            Verse::ChorusDef("Chorus".to_string(), vec![plain("d", 4), plain("e", 30)]),
            Verse::RefrainDef("Refrain".to_string(), vec![plain("f", 8)]),
            Verse::SectionBreak("II".to_string()),
        ],
    }
}

#[test]
fn indents_become_dense_ordinals() {
    let mut song = sample();
    normalize_indents(&mut song);
    assert_eq!(indents(&song), vec![vec![1, 0, 2], vec![], vec![1, 3], vec![2], vec![]]);
}

#[test]
fn normalization_leaves_the_rest_alone() {
    let mut song = sample();
    normalize_indents(&mut song);
    assert_eq!(song.meta, vec![Metadata::Title(plain("T", 7))]);
    assert_eq!(
        song.verses,
        vec![
            Verse::Normal(vec![plain("a", 1), plain("b", 0), plain("c", 2)]),
            Verse::ChorusRef("Chorus".to_string()),
            Verse::ChorusDef("Chorus".to_string(), vec![plain("d", 1), plain("e", 3)]),
            Verse::RefrainDef("Refrain".to_string(), vec![plain("f", 2)]),
            Verse::SectionBreak("II".to_string()),
        ]
    );
}

#[test]
fn normalizing_twice_is_normalizing_once() {
    let mut once = sample();
    normalize_indents(&mut once);
    let mut twice = sample();
    normalize_indents(&mut twice);
    normalize_indents(&mut twice);
    assert_eq!(once, twice);
}

#[test]
fn normalized_indents_are_exactly_the_first_k_numbers() {
    let mut song = sample();
    normalize_indents(&mut song);
    let mut seen: Vec<usize> = indents(&song).into_iter().flatten().collect();
    seen.sort();
    seen.dedup();
    assert_eq!(seen, vec![0, 1, 2, 3]);
}

#[test]
fn normalization_keeps_the_order_of_widths() {
    let before = sample();
    let mut after = sample();
    normalize_indents(&mut after);
    let raw: Vec<usize> = indents(&before).into_iter().flatten().collect();
    let new: Vec<usize> = indents(&after).into_iter().flatten().collect();
    for i in 0..raw.len() {
        for j in 0..raw.len() {
            assert_eq!(raw[i] < raw[j], new[i] < new[j]);
            assert_eq!(raw[i] == raw[j], new[i] == new[j]);
        }
    }
}

#[test]
fn a_single_width_becomes_zero() {
    let mut song = Song { meta: vec![], verses: vec![Verse::Normal(vec![plain("a", 5), plain("b", 5)])] };
    normalize_indents(&mut song);
    assert_eq!(indents(&song), vec![vec![0, 0]]);
}

#[test]
fn a_song_without_lines_is_left_as_it_is() {
    let mut song = Song { meta: vec![], verses: vec![] };
    normalize_indents(&mut song);
    assert_eq!(song, Song { meta: vec![], verses: vec![] });
    let mut song = Song { meta: vec![], verses: vec![Verse::ChorusRef("Chorus".to_string())] };
    normalize_indents(&mut song);
    assert_eq!(song.verses, vec![Verse::ChorusRef("Chorus".to_string())]);
}

#[test]
fn raw_indent_is_the_byte_length_of_the_leading_white_space() {
    let title = vec![Line {
        indent: "",
        items: vec![Item::Sexp(Sexp { keyword: "title", items: vec![Item::Text("T")] })],
    }];
    let verse = vec![
        Line { indent: "\u{3000}", items: vec![Item::Text("three bytes")] },
        Line { indent: "  ", items: vec![Item::Text("two bytes")] },
        Line { indent: "", items: vec![Item::Text("none")] },
        Line { indent: "\t\t\t\t", items: vec![Item::Text("four bytes")] },
    ];
    let song = tr_song(&vec![title, verse]).unwrap();
    assert_eq!(indents(&song), vec![vec![2, 1, 0, 3]]);
}

#[test]
fn indents_are_ranked_over_the_whole_song() {
    let title = vec![Line {
        indent: "",
        items: vec![Item::Sexp(Sexp { keyword: "title", items: vec![Item::Text("T")] })],
    }];
    let first = vec![Line { indent: "        ", items: vec![Item::Text("deep")] }];
    let second = vec![
        Line { indent: "", items: vec![Item::Sexp(Sexp { keyword: "Chorus:", items: vec![] })] },
        Line { indent: "    ", items: vec![Item::Text("middle")] },
    ];
    let song = tr_song(&vec![title, first, second]).unwrap();
    assert_eq!(indents(&song), vec![vec![1], vec![0]]);
}
