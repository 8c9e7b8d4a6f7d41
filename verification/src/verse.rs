//! Verse blocks: their lines, and the marker that says what kind of verse a block is.

use vstd::prelude::*;
use vstd::string::*;
use vstd::slice::slice_subrange;
use crate::error::{Error, ErrorView};
use crate::formatting::{
    after, formatted, is_blank, is_blank_item, lemma_formatted_well_formed, tr_formatted_text,
};
use crate::model::{FormattedText, FormattedTextView, Verse, VerseView, lines_view};
use crate::syntax::{
    Item, ItemView, Line, LineView, SexpView, block_view, lemma_items_view, string_item_of,
};
use crate::text::{byte_len, str_eq, utf8_len};

verus! {

/// A line of a verse: its formatted content, with the byte length of its raw leading
/// white space as indent.
pub open spec fn translated_line(line: LineView) -> Result<FormattedTextView, ErrorView> {
    match formatted(line.items) {
        Ok(ft) => Ok(
            FormattedTextView {
                text: ft.text,
                formatting: ft.formatting,
                indent: utf8_len(line.indent),
            },
        ),
        Err(e) => Err(e),
    }
}

/// The lines of a verse, one for one; the first failure in reading order, if any.
pub open spec fn translated_lines(lines: Seq<LineView>) -> Result<Seq<FormattedTextView>, ErrorView>
    decreases lines.len(),
{
    if lines.len() == 0 {
        Ok(Seq::empty())
    } else {
        match translated_line(lines[0]) {
            Err(e) => Err(e),
            Ok(first) => match translated_lines(lines.drop_first()) {
                Err(e) => Err(e),
                Ok(rest) => Ok(seq![first] + rest),
            },
        }
    }
}

/// One line of a verse.
pub fn tr_line(src: &Line) -> (r: Result<FormattedText, Error>)
    ensures
        match r {
            Ok(ft) => translated_line(src@) == Ok::<FormattedTextView, ErrorView>(ft@),
            Err(e) => translated_line(src@) == Err::<FormattedTextView, ErrorView>(e@),
        },
        r matches Ok(ft) ==> ft@.well_formed(),
{
    match tr_formatted_text(&src.items) {
        Ok(mut ft) => {
            ft.indent = byte_len(src.indent);
            Ok(ft)
        },
        Err(e) => Err(e),
    }
}

/// The lines of a verse.
pub fn tr_lines(src: &[Line]) -> (r: Result<Vec<FormattedText>, Error>)
    ensures
        match r {
            Ok(lines) => translated_lines(block_view(src@)) == Ok::<
                Seq<FormattedTextView>,
                ErrorView,
            >(
                lines_view(lines@),
            ),
            Err(e) => translated_lines(block_view(src@)) == Err::<
                Seq<FormattedTextView>,
                ErrorView,
            >(e@),
        },
{
    let ghost all = block_view(src@);
    let mut out: Vec<FormattedText> = Vec::new();
    let n = src.len();
    let mut i: usize = 0;
    proof {
        assert(all.subrange(0, n as int) =~= all);
        if translated_lines(all) is Ok {
            assert(lines_view(out@) + translated_lines(all)->Ok_0 =~= translated_lines(all)->Ok_0);
        }
    }
    while i < n
        invariant
            n == src@.len(),
            i <= n,
            all == block_view(src@),
            translated_lines(all) == after(
                lines_view(out@),
                translated_lines(all.subrange(i as int, n as int)),
            ),
        decreases n - i,
    {
        let ghost rest = all.subrange(i as int, n as int);
        let ghost done = lines_view(out@);
        proof {
            assert(rest[0] == src@[i as int]@);
            assert(rest.drop_first() =~= all.subrange(i + 1, n as int));
        }
        match tr_line(&src[i]) {
            Ok(ft) => {
                let ghost old_out = out@;
                out.push(ft);
                proof {
                    assert(lines_view(old_out.push(ft)) =~= done.push(ft@));
                    let tail = translated_lines(rest.drop_first());
                    if tail is Ok {
                        assert(done + (seq![ft@] + tail->Ok_0) =~= done.push(ft@) + tail->Ok_0);
                    }
                }
            },
            Err(e) => {
                return Err(e);
            },
        }
        i += 1;
    }
    proof {
        assert(lines_view(out@) + Seq::<FormattedTextView>::empty() =~= lines_view(out@));
    }
    Ok(out)
}

/// A verse without a marker: every line of the block.
pub fn tr_normal_verse(src: &[Line]) -> (r: Result<Verse, Error>)
    ensures
        match r {
            Ok(v) => translated_lines(block_view(src@)) is Ok && v@ == VerseView::Normal(
                translated_lines(block_view(src@))->Ok_0,
            ),
            Err(e) => translated_lines(block_view(src@)) == Err::<
                Seq<FormattedTextView>,
                ErrorView,
            >(e@),
        },
{
    match tr_lines(src) {
        Ok(lines) => Ok(Verse::Normal(lines)),
        Err(e) => Err(e),
    }
}

/// What the marker on the first line of a verse block says the block is.
#[derive(Clone, Copy, Debug)]
pub enum Marker<'a> {
    /// `Chorus:` opens the chorus, written out in the lines that follow.
    ChorusDef,
    /// `Refrain:` opens a refrain, written out in the lines that follow.
    RefrainDef,
    /// `Chorus` stands for the chorus.
    Chorus,
    /// `refrain` stands for the chorus under the given label.
    Refrain(&'a str),
    /// `section-break` divides the song under the given label.
    SectionBreak(&'a str),
}

/// The mathematical value of a [`Marker`].
pub enum MarkerView {
    ChorusDef,
    RefrainDef,
    Chorus,
    Refrain(Seq<char>),
    SectionBreak(Seq<char>),
}

impl<'a> View for Marker<'a> {
    type V = MarkerView;

    open spec fn view(&self) -> MarkerView {
        match *self {
            Marker::ChorusDef => MarkerView::ChorusDef,
            Marker::RefrainDef => MarkerView::RefrainDef,
            Marker::Chorus => MarkerView::Chorus,
            Marker::Refrain(label) => MarkerView::Refrain(label@),
            Marker::SectionBreak(label) => MarkerView::SectionBreak(label@),
        }
    }
}

/// The marker that a form is: one of the five keywords, with no child for
/// `Chorus:`, `Refrain:` and `Chorus`, with one child that is text for `refrain` and
/// `section-break`. Anything else is no marker.
pub open spec fn marker_of(item: ItemView) -> Option<MarkerView> {
    match item {
        ItemView::Text(_) => None,
        ItemView::Sexp(sexp) => if sexp.keyword == "Chorus:"@ {
            if sexp.items.len() == 0 {
                Some(MarkerView::ChorusDef)
            } else {
                None
            }
        } else if sexp.keyword == "Refrain:"@ {
            if sexp.items.len() == 0 {
                Some(MarkerView::RefrainDef)
            } else {
                None
            }
        } else if sexp.keyword == "Chorus"@ {
            if sexp.items.len() == 0 {
                Some(MarkerView::Chorus)
            } else {
                None
            }
        } else if sexp.keyword == "refrain"@ {
            match string_item_of(sexp.keyword, sexp.items) {
                Ok(label) => Some(MarkerView::Refrain(label)),
                Err(_) => None,
            }
        } else if sexp.keyword == "section-break"@ {
            match string_item_of(sexp.keyword, sexp.items) {
                Ok(label) => Some(MarkerView::SectionBreak(label)),
                Err(_) => None,
            }
        } else {
            None
        },
    }
}

/// The items of a line that are not blank text, in order.
pub open spec fn content_items(items: Seq<ItemView>) -> Seq<ItemView>
    decreases items.len(),
{
    if items.len() == 0 {
        Seq::empty()
    } else if is_blank(items[0]) {
        content_items(items.drop_first())
    } else {
        seq![items[0]] + content_items(items.drop_first())
    }
}

/// The marker of a line: that of its one item that is not blank text. A line with no
/// such item, or with two or more, has none.
pub open spec fn line_marker(line: LineView) -> Option<MarkerView> {
    let content = content_items(line.items);
    if content.len() == 1 {
        marker_of(content[0])
    } else {
        None
    }
}

/// The verse that a block of lines stands for.
///
/// With a marker on the first line: `Chorus:` and `Refrain:` take the lines after it as
/// their body; `Chorus` has the lines after it translated, so that a failure in them
/// is a failure of the block, and keeps none of them; `refrain` and `section-break`
/// pass over the lines after it. Without a marker every line of the block, the first
/// too, is a line of a normal verse.
pub open spec fn translated_verse(lines: Seq<LineView>) -> Result<VerseView, ErrorView>
    recommends
        lines.len() > 0,
{
    match line_marker(lines[0]) {
        Some(MarkerView::ChorusDef) => match translated_lines(lines.drop_first()) {
            Ok(body) => Ok(VerseView::ChorusDef("Chorus"@, body)),
            Err(e) => Err(e),
        },
        Some(MarkerView::RefrainDef) => match translated_lines(lines.drop_first()) {
            Ok(body) => Ok(VerseView::RefrainDef("Refrain"@, body)),
            Err(e) => Err(e),
        },
        Some(MarkerView::Chorus) => match translated_lines(lines.drop_first()) {
            Ok(_) => Ok(VerseView::ChorusRef("Chorus"@)),
            Err(e) => Err(e),
        },
        Some(MarkerView::Refrain(label)) => Ok(VerseView::ChorusRef(label)),
        Some(MarkerView::SectionBreak(label)) => Ok(VerseView::SectionBreak(label)),
        None => match translated_lines(lines) {
            Ok(body) => Ok(VerseView::Normal(body)),
            Err(e) => Err(e),
        },
    }
}

/// The marker that an item is, if it is one.
pub fn item_marker<'a>(item: &Item<'a>) -> (r: Option<Marker<'a>>)
    ensures
        match r {
            Some(m) => marker_of(item@) == Some(m@),
            None => marker_of(item@) is None,
        },
{
    match item {
        Item::Text(_) => None,
        Item::Sexp(sexp) => {
            if str_eq(sexp.keyword, "Chorus:") {
                if sexp.has_args() {
                    None
                } else {
                    Some(Marker::ChorusDef)
                }
            } else if str_eq(sexp.keyword, "Refrain:") {
                if sexp.has_args() {
                    None
                } else {
                    Some(Marker::RefrainDef)
                }
            } else if str_eq(sexp.keyword, "Chorus") {
                if sexp.has_args() {
                    None
                } else {
                    Some(Marker::Chorus)
                }
            } else if str_eq(sexp.keyword, "refrain") {
                match sexp.string_item() {
                    Ok(label) => Some(Marker::Refrain(label)),
                    Err(_) => None,
                }
            } else if str_eq(sexp.keyword, "section-break") {
                match sexp.string_item() {
                    Ok(label) => Some(Marker::SectionBreak(label)),
                    Err(_) => None,
                }
            } else {
                None
            }
        },
    }
}

/// The marker of a line, if it has one.
pub fn first_line_marker<'a>(line: &Line<'a>) -> (r: Option<Marker<'a>>)
    ensures
        match r {
            Some(m) => line_marker(line@) == Some(m@),
            None => line_marker(line@) is None,
        },
{
    let ghost all = line@.items;
    let n = line.items.len();
    let mut found: Option<usize> = None;
    let mut i: usize = 0;
    proof {
        lemma_items_view(line.items@);
        assert(all.subrange(0, n as int) =~= all);
        assert(Seq::<ItemView>::empty() + content_items(all) =~= content_items(all));
    }
    while i < n
        invariant
            n == line.items@.len(),
            i <= n,
            all == line@.items,
            all.len() == n,
            forall|k: int| 0 <= k < n ==> (#[trigger] all[k]) == line.items@[k]@,
            found matches Some(k) ==> k < i,
            content_items(all) == (match found {
                Some(k) => seq![all[k as int]],
                None => Seq::empty(),
            }) + content_items(all.subrange(i as int, n as int)),
        decreases n - i,
    {
        let ghost rest = all.subrange(i as int, n as int);
        proof {
            assert(rest[0] == all[i as int]);
            assert(rest.drop_first() =~= all.subrange(i + 1, n as int));
        }
        if !is_blank_item(&line.items[i]) {
            if found.is_some() {
                proof {
                    assert(content_items(rest).len() >= 1);
                    assert(content_items(all).len() >= 2);
                }
                return None;
            }
            found = Some(i);
            proof {
                assert(Seq::<ItemView>::empty() + content_items(rest) =~= seq![all[i as int]]
                    + content_items(rest.drop_first()));
            }
        }
        i += 1;
    }
    match found {
        Some(k) => {
            proof {
                assert(content_items(all) =~= seq![all[k as int]]);
            }
            item_marker(&line.items[k])
        },
        None => {
            proof {
                assert(content_items(all) =~= Seq::empty());
            }
            None
        },
    }
}

/// One verse block.
pub fn tr_verse(src: &Vec<Line>) -> (r: Result<Verse, Error>)
    requires
        src@.len() > 0,
    ensures
        match r {
            Ok(v) => translated_verse(block_view(src@)) == Ok::<VerseView, ErrorView>(v@),
            Err(e) => translated_verse(block_view(src@)) == Err::<VerseView, ErrorView>(e@),
        },
{
    let all = src.as_slice();
    let rest = slice_subrange(all, 1, src.len());
    assert(rest@ =~= src@.drop_first());
    assert(block_view(rest@) =~= block_view(src@).drop_first());
    assert(block_view(src@)[0] == src@[0]@);
    match first_line_marker(&src[0]) {
        Some(Marker::ChorusDef) => match tr_lines(rest) {
            Ok(lines) => Ok(Verse::ChorusDef(String::from_str("Chorus"), lines)),
            Err(e) => Err(e),
        },
        Some(Marker::RefrainDef) => match tr_lines(rest) {
            Ok(lines) => Ok(Verse::RefrainDef(String::from_str("Refrain"), lines)),
            Err(e) => Err(e),
        },
        Some(Marker::Chorus) => match tr_lines(rest) {
            Ok(_) => Ok(Verse::ChorusRef(String::from_str("Chorus"))),
            Err(e) => Err(e),
        },
        Some(Marker::Refrain(label)) => Ok(Verse::ChorusRef(String::from_str(label))),
        Some(Marker::SectionBreak(label)) => Ok(Verse::SectionBreak(String::from_str(label))),
        None => tr_normal_verse(all),
    }
}

/// Where every item of a run but the one at `k` is blank text, and that one is not, it
/// is the run's whole content.
pub proof fn lemma_sole_content(items: Seq<ItemView>, k: int)
    requires
        0 <= k < items.len(),
        !is_blank(items[k]),
        forall|j: int| 0 <= j < items.len() && j != k ==> is_blank(#[trigger] items[j]),
    ensures
        content_items(items) == seq![items[k]],
    decreases items.len(),
{
    let rest = items.drop_first();
    if k == 0 {
        lemma_no_content(rest);
        assert(seq![items[0]] + Seq::<ItemView>::empty() =~= seq![items[0]]);
    } else {
        assert(rest[k - 1] == items[k]);
        assert forall|j: int| 0 <= j < rest.len() && j != k - 1 implies is_blank(
            #[trigger] rest[j],
        ) by {
            assert(rest[j] == items[j + 1]);
        }
        lemma_sole_content(rest, k - 1);
    }
}

/// A run of blank text has no content.
pub proof fn lemma_no_content(items: Seq<ItemView>)
    requires
        forall|j: int| 0 <= j < items.len() ==> is_blank(#[trigger] items[j]),
    ensures
        content_items(items) == Seq::<ItemView>::empty(),
    decreases items.len(),
{
    if items.len() > 0 {
        let rest = items.drop_first();
        assert forall|j: int| 0 <= j < rest.len() implies is_blank(#[trigger] rest[j]) by {
            assert(rest[j] == items[j + 1]);
        }
        lemma_no_content(rest);
    }
}

/// A block whose first line holds a `Chorus:` form without children, and beside it
/// nothing but blank text, is the chorus: its label is `Chorus`, and its body the lines
/// after the first, translated. Where one of those lines fails, the block fails with that
/// failure.
pub proof fn law_lone_chorus_marker(lines: Seq<LineView>, k: int, sexp: SexpView)
    requires
        lines.len() > 0,
        0 <= k < lines[0].items.len(),
        lines[0].items[k] == ItemView::Sexp(sexp),
        sexp.keyword == "Chorus:"@,
        sexp.items.len() == 0,
        forall|j: int|
            0 <= j < lines[0].items.len() && j != k ==> is_blank(#[trigger] lines[0].items[j]),
    ensures
        translated_verse(lines) == match translated_lines(lines.drop_first()) {
            Ok(body) => Ok::<VerseView, ErrorView>(VerseView::ChorusDef("Chorus"@, body)),
            Err(e) => Err(e),
        },
{
    lemma_sole_content(lines[0].items, k);
}

/// The lines of a verse are well formed.
pub proof fn lemma_lines_well_formed(lines: Seq<LineView>)
    ensures
        translated_lines(lines) matches Ok(out) ==> forall|j: int|
            0 <= j < out.len() ==> (#[trigger] out[j]).well_formed(),
    decreases lines.len(),
{
    if lines.len() > 0 {
        lemma_lines_well_formed(lines.drop_first());
        lemma_formatted_well_formed(lines[0].items);
    }
}

/// A verse is well formed.
pub proof fn lemma_verse_well_formed(lines: Seq<LineView>)
    ensures
        translated_verse(lines) matches Ok(v) ==> v.well_formed(),
{
    lemma_lines_well_formed(lines);
    lemma_lines_well_formed(lines.drop_first());
}

} // verus!
