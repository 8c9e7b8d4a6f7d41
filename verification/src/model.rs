//! The document model that translation produces: a song, its metadata, its verses.

use vstd::prelude::*;
use vstd::string::*;
use crate::text::utf8_len;

verus! {

/// A way of setting a stretch of text.
#[derive(Clone, Copy, Debug, PartialEq, Eq, Structural)]
pub enum Style {
    Italic,
}

/// A style applied to the bytes `start..end` of a text buffer.
#[derive(Clone, Copy, Debug, PartialEq, Eq, Structural)]
pub struct Span {
    pub start: usize,
    pub end: usize,
    pub style: Style,
}

/// The mathematical value of a [`Span`].
pub struct SpanView {
    pub start: nat,
    pub end: nat,
    pub style: Style,
}

impl View for Span {
    type V = SpanView;

    open spec fn view(&self) -> SpanView {
        SpanView { start: self.start as nat, end: self.end as nat, style: self.style }
    }
}

/// Text with style spans over it and an indent.
#[derive(Debug, PartialEq, Eq)]
pub struct FormattedText {
    pub text: String,
    pub formatting: Vec<Span>,
    pub indent: usize,
}

/// The mathematical value of a [`FormattedText`].
pub struct FormattedTextView {
    pub text: Seq<char>,
    pub formatting: Seq<SpanView>,
    pub indent: nat,
}

/// The values of a sequence of spans.
pub open spec fn spans_view(spans: Seq<Span>) -> Seq<SpanView> {
    spans.map_values(|s: Span| s@)
}

/// The values of a sequence of lines.
pub open spec fn lines_view(lines: Seq<FormattedText>) -> Seq<FormattedTextView> {
    lines.map_values(|l: FormattedText| l@)
}

impl View for FormattedText {
    type V = FormattedTextView;

    open spec fn view(&self) -> FormattedTextView {
        FormattedTextView {
            text: self.text@,
            formatting: spans_view(self.formatting@),
            indent: self.indent as nat,
        }
    }
}

/// Two spans lie apart, or one lies within the other.
pub open spec fn apart_or_nested(a: SpanView, b: SpanView) -> bool {
    ||| a.end <= b.start
    ||| b.end <= a.start
    ||| (a.start <= b.start && b.end <= a.end)
    ||| (b.start <= a.start && a.end <= b.end)
}

/// Every span lies within `lo..hi` and runs forward.
pub open spec fn spans_within(spans: Seq<SpanView>, lo: nat, hi: nat) -> bool {
    forall|i: int| 0 <= i < spans.len() ==> lo <= (#[trigger] spans[i]).start <= spans[i].end <= hi
}

/// No two spans overlap in part.
pub open spec fn spans_laminar(spans: Seq<SpanView>) -> bool {
    forall|i: int, j: int|
        0 <= i < spans.len() && 0 <= j < spans.len() ==> apart_or_nested(
            #[trigger] spans[i],
            #[trigger] spans[j],
        )
}

impl FormattedTextView {
    /// The spans lie within the text, and no two overlap in part.
    pub open spec fn well_formed(self) -> bool {
        &&& spans_within(self.formatting, 0, utf8_len(self.text))
        &&& spans_laminar(self.formatting)
    }

    /// The spans that `self` has beyond those of `before`.
    pub open spec fn spans_since(self, before: FormattedTextView) -> Seq<SpanView> {
        self.formatting.subrange(before.formatting.len() as int, self.formatting.len() as int)
    }

    /// `self` is `before` with text and spans appended: the text of `before` begins its
    /// text, the spans of `before` begin its spans, its indent is that of `before`, and
    /// the spans it has beyond those lie within the text it has beyond that of `before`,
    /// no two of them overlapping in part.
    pub open spec fn grown_from(self, before: FormattedTextView) -> bool {
        &&& before.text.is_prefix_of(self.text)
        &&& before.formatting.is_prefix_of(self.formatting)
        &&& self.indent == before.indent
        &&& spans_within(self.spans_since(before), utf8_len(before.text), utf8_len(self.text))
        &&& spans_laminar(self.spans_since(before))
    }
}

impl FormattedText {
    /// Empty text, no spans, no indent.
    pub fn new() -> (ft: FormattedText)
        ensures
            ft@ == (FormattedTextView { text: Seq::empty(), formatting: Seq::empty(), indent: 0 }),
    {
        let ft = FormattedText { text: String::new(), formatting: Vec::new(), indent: 0 };
        assert(ft@.formatting =~= Seq::empty());
        ft
    }
}

/// One entry of a song's metadata block.
#[derive(Debug, PartialEq, Eq)]
pub enum Metadata {
    /// The primary title of the song.
    Title(FormattedText),
    /// An alternative title.
    AltTitle(FormattedText),
    /// The language of the text, as a language tag.
    Language(String),
    /// Reference to another book containing the song.
    CrossRef(FormattedText),
    /// Attribution.
    Attrib(FormattedText),
    /// This song has a descant.
    Descant,
    /// The category in which to file this song.
    Category(String),
    /// A further phrase under which to index this song.
    IndexEntry(String),
    /// A type of dance this song may be suitable for.
    Dance(String),
    /// A keyword that is accepted and has no effect.
    Ignored,
}

/// The mathematical value of a [`Metadata`].
pub enum MetadataView {
    Title(FormattedTextView),
    AltTitle(FormattedTextView),
    Language(Seq<char>),
    CrossRef(FormattedTextView),
    Attrib(FormattedTextView),
    Descant,
    Category(Seq<char>),
    IndexEntry(Seq<char>),
    Dance(Seq<char>),
    Ignored,
}

impl View for Metadata {
    type V = MetadataView;

    open spec fn view(&self) -> MetadataView {
        match *self {
            Metadata::Title(t) => MetadataView::Title(t@),
            Metadata::AltTitle(t) => MetadataView::AltTitle(t@),
            Metadata::Language(s) => MetadataView::Language(s@),
            Metadata::CrossRef(t) => MetadataView::CrossRef(t@),
            Metadata::Attrib(t) => MetadataView::Attrib(t@),
            Metadata::Descant => MetadataView::Descant,
            Metadata::Category(s) => MetadataView::Category(s@),
            Metadata::IndexEntry(s) => MetadataView::IndexEntry(s@),
            Metadata::Dance(s) => MetadataView::Dance(s@),
            Metadata::Ignored => MetadataView::Ignored,
        }
    }
}

/// One block of a song's body.
#[derive(Debug, PartialEq, Eq)]
pub enum Verse {
    /// Plain lines.
    Normal(Vec<FormattedText>),
    /// The chorus, written out under its label.
    ChorusDef(String, Vec<FormattedText>),
    /// A refrain, written out beside its label.
    RefrainDef(String, Vec<FormattedText>),
    /// A reminder to sing the chorus here.
    ChorusRef(String),
    /// A divider, such as another language or another poem to the same tune.
    SectionBreak(String),
}

/// The mathematical value of a [`Verse`].
pub enum VerseView {
    Normal(Seq<FormattedTextView>),
    ChorusDef(Seq<char>, Seq<FormattedTextView>),
    RefrainDef(Seq<char>, Seq<FormattedTextView>),
    ChorusRef(Seq<char>),
    SectionBreak(Seq<char>),
}

impl View for Verse {
    type V = VerseView;

    open spec fn view(&self) -> VerseView {
        match *self {
            Verse::Normal(lines) => VerseView::Normal(lines_view(lines@)),
            Verse::ChorusDef(label, lines) => VerseView::ChorusDef(label@, lines_view(lines@)),
            Verse::RefrainDef(label, lines) => VerseView::RefrainDef(label@, lines_view(lines@)),
            Verse::ChorusRef(label) => VerseView::ChorusRef(label@),
            Verse::SectionBreak(label) => VerseView::SectionBreak(label@),
        }
    }
}

impl MetadataView {
    /// The formatted text of the entry, if it has one, is well formed.
    pub open spec fn well_formed(self) -> bool {
        match self {
            MetadataView::Title(t) => t.well_formed(),
            MetadataView::AltTitle(t) => t.well_formed(),
            MetadataView::CrossRef(t) => t.well_formed(),
            MetadataView::Attrib(t) => t.well_formed(),
            _ => true,
        }
    }
}

impl VerseView {
    /// Every line that the verse owns is well formed.
    pub open spec fn well_formed(self) -> bool {
        match self.lines() {
            Some(lines) => forall|j: int|
                0 <= j < lines.len() ==> (#[trigger] lines[j]).well_formed(),
            None => true,
        }
    }

    /// The verse with `lines` in place of the lines that it owns; a reference or a divider
    /// as it is.
    pub open spec fn with_lines(self, lines: Seq<FormattedTextView>) -> VerseView {
        match self {
            VerseView::Normal(_) => VerseView::Normal(lines),
            VerseView::ChorusDef(label, _) => VerseView::ChorusDef(label, lines),
            VerseView::RefrainDef(label, _) => VerseView::RefrainDef(label, lines),
            VerseView::ChorusRef(label) => VerseView::ChorusRef(label),
            VerseView::SectionBreak(label) => VerseView::SectionBreak(label),
        }
    }

    /// The lines that the verse owns; none for a reference or a divider.
    pub open spec fn lines(self) -> Option<Seq<FormattedTextView>> {
        match self {
            VerseView::Normal(lines) => Some(lines),
            VerseView::ChorusDef(_, lines) => Some(lines),
            VerseView::RefrainDef(_, lines) => Some(lines),
            VerseView::ChorusRef(_) => None,
            VerseView::SectionBreak(_) => None,
        }
    }
}

/// The lines that a verse owns; none for a reference or a divider.
pub fn verse_lines(verse: &Verse) -> (r: Option<&Vec<FormattedText>>)
    ensures
        match r {
            Some(lines) => verse@.lines() == Some(lines_view(lines@)),
            None => verse@.lines() is None,
        },
{
    match verse {
        Verse::Normal(lines) => Some(lines),
        Verse::ChorusDef(_, lines) => Some(lines),
        Verse::RefrainDef(_, lines) => Some(lines),
        Verse::ChorusRef(_) => None,
        Verse::SectionBreak(_) => None,
    }
}

/// The lines that a verse owns, to be changed in place; none for a reference or a divider.
/// Whatever the caller does to the lines, the rest of the verse stays as it is.
pub fn verse_lines_mut(verse: &mut Verse) -> (r: Option<&mut Vec<FormattedText>>)
    ensures
        match r {
            Some(lines) => {
                &&& old(verse)@.lines() == Some(lines_view(lines@))
                &&& final(verse)@ == old(verse)@.with_lines(lines_view(final(lines)@))
            },
            None => old(verse)@.lines() is None && *final(verse) == *old(verse),
        },
{
    match verse {
        Verse::Normal(lines) => Some(lines),
        Verse::ChorusDef(_, lines) => Some(lines),
        Verse::RefrainDef(_, lines) => Some(lines),
        Verse::ChorusRef(_) => None,
        Verse::SectionBreak(_) => None,
    }
}

/// How the label of a verse is set.
#[derive(Clone, Copy, Debug, PartialEq, Eq, Structural)]
pub enum LabelStyle {
    Bold,
    Italic,
}

/// What stands for the label of a verse on the page.
#[derive(Debug, PartialEq, Eq)]
pub struct Heading {
    pub text: String,
    pub style: LabelStyle,
}

/// The mathematical value of a [`Heading`].
pub struct HeadingView {
    pub text: Seq<char>,
    pub style: LabelStyle,
}

impl View for Heading {
    type V = HeadingView;

    open spec fn view(&self) -> HeadingView {
        HeadingView { text: self.text@, style: self.style }
    }
}

impl VerseView {
    /// What stands for the label of the verse on the page: above the chorus its label
    /// and a colon, in bold; before a refrain its label, a colon and a space, in bold; for
    /// a reference or a divider its label, in italics. A normal verse has none.
    pub open spec fn heading(self) -> Option<HeadingView> {
        match self {
            VerseView::Normal(_) => None,
            VerseView::ChorusDef(label, _) => Some(
                HeadingView { text: label + ":"@, style: LabelStyle::Bold },
            ),
            VerseView::RefrainDef(label, _) => Some(
                HeadingView { text: label + ": "@, style: LabelStyle::Bold },
            ),
            VerseView::ChorusRef(label) => Some(
                HeadingView { text: label, style: LabelStyle::Italic },
            ),
            VerseView::SectionBreak(label) => Some(
                HeadingView { text: label, style: LabelStyle::Italic },
            ),
        }
    }
}

impl Verse {
    /// What stands for the label of the verse on the page.
    pub fn heading(&self) -> (r: Option<Heading>)
        ensures
            match r {
                Some(h) => self@.heading() == Some(h@),
                None => self@.heading() is None,
            },
    {
        match self {
            Verse::Normal(_) => None,
            Verse::ChorusDef(label, _) => {
                let mut text = label.clone();
                text.append(":");
                Some(Heading { text, style: LabelStyle::Bold })
            },
            Verse::RefrainDef(label, _) => {
                let mut text = label.clone();
                text.append(": ");
                Some(Heading { text, style: LabelStyle::Bold })
            },
            Verse::ChorusRef(label) => Some(
                Heading { text: label.clone(), style: LabelStyle::Italic },
            ),
            Verse::SectionBreak(label) => Some(
                Heading { text: label.clone(), style: LabelStyle::Italic },
            ),
        }
    }
}

/// A translated song.
#[derive(Debug, PartialEq, Eq)]
pub struct Song {
    pub meta: Vec<Metadata>,
    pub verses: Vec<Verse>,
}

/// The mathematical value of a [`Song`].
pub struct SongView {
    pub meta: Seq<MetadataView>,
    pub verses: Seq<VerseView>,
}

/// The values of a sequence of metadata entries.
pub open spec fn meta_view(meta: Seq<Metadata>) -> Seq<MetadataView> {
    meta.map_values(|m: Metadata| m@)
}

/// The values of a sequence of verses.
pub open spec fn verses_view(verses: Seq<Verse>) -> Seq<VerseView> {
    verses.map_values(|v: Verse| v@)
}

impl SongView {
    /// Every formatted text of the song is well formed: its spans lie within its text,
    /// and no two of them overlap in part.
    pub open spec fn well_formed(self) -> bool {
        &&& forall|i: int| 0 <= i < self.meta.len() ==> (#[trigger] self.meta[i]).well_formed()
        &&& forall|i: int| 0 <= i < self.verses.len() ==> (#[trigger] self.verses[i]).well_formed()
    }
}

impl View for Song {
    type V = SongView;

    open spec fn view(&self) -> SongView {
        SongView { meta: meta_view(self.meta@), verses: verses_view(self.verses@) }
    }
}

/// The first title among the metadata entries, if there is one.
pub open spec fn first_title(meta: Seq<MetadataView>) -> Option<FormattedTextView>
    decreases meta.len(),
{
    if meta.len() == 0 {
        None
    } else {
        match meta[0] {
            MetadataView::Title(t) => Some(t),
            _ => first_title(meta.drop_first()),
        }
    }
}

impl Song {
    /// The song's title: the first `Title` entry of its metadata.
    pub fn title(&self) -> (r: Option<&FormattedText>)
        ensures
            match r {
                Some(t) => first_title(self@.meta) == Some(t@),
                None => first_title(self@.meta) is None,
            },
    {
        let n = self.meta.len();
        let mut i: usize = 0;
        assert(self@.meta.subrange(0, n as int) =~= self@.meta);
        while i < n
            invariant
                n == self.meta@.len(),
                i <= n,
                first_title(self@.meta) == first_title(self@.meta.subrange(i as int, n as int)),
            decreases n - i,
        {
            let ghost rest = self@.meta.subrange(i as int, n as int);
            proof {
                assert(rest[0] == self.meta@[i as int]@);
                assert(rest.drop_first() =~= self@.meta.subrange(i + 1, n as int));
            }
            if let Metadata::Title(t) = &self.meta[i] {
                return Some(t);
            }
            i += 1;
        }
        None
    }

    /// The letter under which the song is filed: the first character of its title.
    pub fn file_letter(&self) -> (r: Option<char>)
        ensures
            r == match first_title(self@.meta) {
                Some(t) => if t.text.len() > 0 { Some(t.text[0]) } else { None },
                None => None,
            },
    {
        match self.title() {
            Some(t) => {
                let s = t.text.as_str();
                if s.unicode_len() > 0 {
                    Some(s.get_char(0))
                } else {
                    None
                }
            },
            None => None,
        }
    }
}

} // verus!
