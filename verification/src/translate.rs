//! Translation of a whole document into a song.

use vstd::prelude::*;
use crate::error::{Error, ErrorView};
use crate::formatting::after;
use crate::indent::{lemma_normalized_well_formed, normalize_indents, normalized};
use crate::parse::{ParseError, ParseErrorView, document, parse_song};
use crate::metadata::{lemma_meta_block_well_formed, meta_block, tr_meta_block};
use crate::model::{MetadataView, Song, SongView, Verse, VerseView, meta_view, verses_view};
use crate::syntax::{Line, LineView, block_view, blocks_view};
use crate::verse::{lemma_verse_well_formed, tr_verse, translated_verse};

verus! {

/// The verses that the blocks stand for, one for one; the first failure in reading
/// order, if any.
pub open spec fn translated_verses(blocks: Seq<Seq<LineView>>) -> Result<Seq<VerseView>, ErrorView>
    decreases blocks.len(),
{
    if blocks.len() == 0 {
        Ok(Seq::empty())
    } else {
        match translated_verse(blocks[0]) {
            Err(e) => Err(e),
            Ok(first) => after(seq![first], translated_verses(blocks.drop_first())),
        }
    }
}

/// The song that a document stands for: the metadata of its first block, a verse for
/// each block after it, and the indents normalized.
pub open spec fn translated_song(blocks: Seq<Seq<LineView>>) -> Result<SongView, ErrorView>
    recommends
        blocks.len() > 0,
{
    match meta_block(blocks[0]) {
        Err(e) => Err(e),
        Ok(meta) => match translated_verses(blocks.drop_first()) {
            Err(e) => Err(e),
            Ok(verses) => Ok(normalized(SongView { meta, verses })),
        },
    }
}

/// Translates a document: its first block is the metadata block, each block after it
/// is a verse.
pub fn tr_song(src: &Vec<Vec<Line>>) -> (r: Result<Song, Error>)
    requires
        src@.len() > 0,
        forall|i: int| 1 <= i < src@.len() ==> (#[trigger] src@[i])@.len() > 0,
    ensures
        match r {
            Ok(song) => translated_song(blocks_view(src@)) == Ok::<SongView, ErrorView>(song@),
            Err(e) => translated_song(blocks_view(src@)) == Err::<SongView, ErrorView>(e@),
        },
        r matches Ok(song) ==> song@.well_formed(),
{
    let ghost all = blocks_view(src@);
    let meta = match tr_meta_block(&src[0]) {
        Ok(meta) => meta,
        Err(e) => {
            return Err(e);
        },
    };
    let mut verses: Vec<Verse> = Vec::new();
    let n = src.len();
    let mut i: usize = 1;
    let ghost blocks = all.drop_first();
    proof {
        assert(all.subrange(1, n as int) =~= blocks);
        assert(verses_view(verses@) =~= Seq::empty());
        if translated_verses(blocks) is Ok {
            assert(verses_view(verses@) + translated_verses(blocks)->Ok_0 =~= translated_verses(
                blocks,
            )->Ok_0);
        }
    }
    while i < n
        invariant
            n == src@.len(),
            1 <= i <= n,
            all == blocks_view(src@),
            blocks == all.drop_first(),
            meta_block(all[0]) == Ok::<Seq<MetadataView>, ErrorView>(meta_view(meta@)),
            forall|i: int| 1 <= i < src@.len() ==> (#[trigger] src@[i])@.len() > 0,
            translated_verses(blocks) == after(
                verses_view(verses@),
                translated_verses(all.subrange(i as int, n as int)),
            ),
        decreases n - i,
    {
        let ghost rest = all.subrange(i as int, n as int);
        let ghost done = verses_view(verses@);
        proof {
            assert(rest[0] == block_view(src@[i as int]@));
            assert(rest.drop_first() =~= all.subrange(i + 1, n as int));
        }
        match tr_verse(&src[i]) {
            Ok(v) => {
                let ghost old_verses = verses@;
                verses.push(v);
                proof {
                    assert(verses_view(old_verses.push(v)) =~= done.push(v@));
                    let tail = translated_verses(rest.drop_first());
                    if tail is Ok {
                        assert(done + (seq![v@] + tail->Ok_0) =~= done.push(v@) + tail->Ok_0);
                    }
                }
            },
            Err(e) => {
                return Err(e);
            },
        }
        i += 1;
    }
    proof {
        assert(verses_view(verses@) + Seq::<VerseView>::empty() =~= verses_view(verses@));
    }
    let mut song = Song { meta, verses };
    normalize_indents(&mut song);
    proof {
        lemma_song_well_formed(all);
    }
    Ok(song)
}

/// The verses of a song are well formed.
pub proof fn lemma_verses_well_formed(blocks: Seq<Seq<LineView>>)
    ensures
        translated_verses(blocks) matches Ok(verses) ==> forall|i: int|
            0 <= i < verses.len() ==> (#[trigger] verses[i]).well_formed(),
    decreases blocks.len(),
{
    if blocks.len() > 0 {
        lemma_verses_well_formed(blocks.drop_first());
        lemma_verse_well_formed(blocks[0]);
    }
}

/// A translated song is well formed: in each of its formatted texts the spans lie within
/// the text, and no two of them overlap in part.
pub proof fn lemma_song_well_formed(blocks: Seq<Seq<LineView>>)
    ensures
        translated_song(blocks) matches Ok(song) ==> song.well_formed(),
{
    if let Ok(meta) = meta_block(blocks[0]) {
        if let Ok(verses) = translated_verses(blocks.drop_first()) {
            lemma_meta_block_well_formed(blocks[0]);
            lemma_verses_well_formed(blocks.drop_first());
            lemma_normalized_well_formed(SongView { meta, verses });
        }
    }
}

/// A failure of one block is a failure of the verses.
pub proof fn lemma_failing_verse(blocks: Seq<Seq<LineView>>, i: int)
    requires
        0 <= i < blocks.len(),
        translated_verse(blocks[i]) is Err,
    ensures
        translated_verses(blocks) is Err,
    decreases blocks.len(),
{
    if i > 0 {
        lemma_failing_verse(blocks.drop_first(), i - 1);
    }
}

/// Translation fails where a block fails: with the failure of the metadata block, if it
/// fails; with some failure, if a verse block does.
pub proof fn law_failing_block_fails_song(blocks: Seq<Seq<LineView>>, i: int)
    requires
        0 <= i < blocks.len(),
        if i == 0 {
            meta_block(blocks[0]) is Err
        } else {
            translated_verse(blocks[i]) is Err
        },
    ensures
        translated_song(blocks) is Err,
        i == 0 ==> translated_song(blocks) == Err::<SongView, ErrorView>(
            meta_block(blocks[0])->Err_0,
        ),
{
    if i > 0 {
        assert(blocks.drop_first()[i - 1] == blocks[i]);
        lemma_failing_verse(blocks.drop_first(), i - 1);
    }
}

/// Why a text is no song.
#[derive(Debug, PartialEq, Eq)]
pub enum ReadError {
    /// The text does not parse.
    Parse(ParseError),
    /// The text holds no block, so no metadata.
    Empty,
    /// The document does not translate.
    Translation(Error),
}

/// The mathematical value of a [`ReadError`].
pub enum ReadErrorView {
    Parse(ParseErrorView),
    Empty,
    Translation(ErrorView),
}

impl View for ReadError {
    type V = ReadErrorView;

    open spec fn view(&self) -> ReadErrorView {
        match *self {
            ReadError::Parse(e) => ReadErrorView::Parse(e@),
            ReadError::Empty => ReadErrorView::Empty,
            ReadError::Translation(e) => ReadErrorView::Translation(e@),
        }
    }
}

/// The song that a text stands for: the text parsed, then the document translated.
pub open spec fn song_of_text(text: Seq<char>) -> Result<SongView, ReadErrorView> {
    match document(text) {
        Err(e) => Err(ReadErrorView::Parse(e)),
        Ok(blocks) => if blocks.len() == 0 {
            Err(ReadErrorView::Empty)
        } else {
            match translated_song(blocks) {
                Ok(song) => Ok(song),
                Err(e) => Err(ReadErrorView::Translation(e)),
            }
        },
    }
}

/// Reads a song from the text of its file.
pub fn read_song(contents: &str) -> (r: Result<Song, ReadError>)
    ensures
        match r {
            Ok(song) => song_of_text(contents@) == Ok::<SongView, ReadErrorView>(song@),
            Err(e) => song_of_text(contents@) == Err::<SongView, ReadErrorView>(e@),
        },
        r matches Ok(song) ==> song@.well_formed(),
{
    let parsed = match parse_song(contents) {
        Ok(parsed) => parsed,
        Err(e) => {
            return Err(ReadError::Parse(e));
        },
    };
    if parsed.len() == 0 {
        return Err(ReadError::Empty);
    }
    match tr_song(&parsed) {
        Ok(song) => Ok(song),
        Err(e) => Err(ReadError::Translation(e)),
    }
}

} // verus!
