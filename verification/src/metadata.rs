//! The metadata block: a table of keywords, and an entry for each form.

use vstd::prelude::*;
use vstd::string::*;
use crate::error::{Error, ErrorKind, ErrorView};
use crate::formatting::{after, formatted, lemma_formatted_well_formed, tr_formatted_text};
use crate::model::{Metadata, MetadataView, meta_view};
use crate::syntax::{
    Item, ItemView, Line, LineView, Sexp, SexpView, block_view, items_view, lemma_items_view,
    string_item_of,
};
use crate::text::{all_white_space, str_eq, str_is_whitespace};

verus! {

/// What a keyword of the metadata block stands for.
#[derive(Clone, Copy, Debug, PartialEq, Eq, Structural)]
pub enum MetaKeyword {
    Title,
    AltTitle,
    Attrib,
    CrossRef,
    Category,
    IndexEntry,
    Language,
    Dance,
    Descant,
    Ignored,
}

/// The keywords that are accepted in the metadata block and have no effect.
pub open spec fn is_ignored_keyword(keyword: Seq<char>) -> bool {
    ||| keyword == "numbered-verses"@
    ||| keyword == "todo"@
    ||| keyword == "TODO"@
    ||| keyword == "TODO-special-formatting"@
    ||| keyword == "note"@
    ||| keyword == "ignore-this-file"@
    ||| keyword == "inline-chorus-markers"@
    ||| keyword == "inline-chorus"@
    ||| keyword == "white-book-note"@
    ||| keyword == "origin"@
    ||| keyword == "source"@
}

/// The table of metadata keywords; `None` for a keyword outside it.
pub open spec fn meta_keyword(keyword: Seq<char>) -> Option<MetaKeyword> {
    if keyword == "title"@ || keyword == "white-book"@ || keyword == "white-book-title"@ {
        Some(MetaKeyword::Title)
    } else if keyword == "alt-title"@ {
        Some(MetaKeyword::AltTitle)
    } else if keyword == "attrib"@ || keyword == "author"@ {
        Some(MetaKeyword::Attrib)
    } else if keyword == "ref"@ || keyword == "xref"@ {
        Some(MetaKeyword::CrossRef)
    } else if keyword == "category"@ {
        Some(MetaKeyword::Category)
    } else if keyword == "index"@ {
        Some(MetaKeyword::IndexEntry)
    } else if keyword == "lang"@ {
        Some(MetaKeyword::Language)
    } else if keyword == "dance"@ {
        Some(MetaKeyword::Dance)
    } else if keyword == "descant"@ {
        Some(MetaKeyword::Descant)
    } else if is_ignored_keyword(keyword) {
        Some(MetaKeyword::Ignored)
    } else {
        None
    }
}

fn is_ignored(keyword: &str) -> (b: bool)
    ensures
        b == is_ignored_keyword(keyword@),
{
    str_eq(keyword, "numbered-verses") || str_eq(keyword, "todo") || str_eq(keyword, "TODO")
        || str_eq(keyword, "TODO-special-formatting") || str_eq(keyword, "note") || str_eq(
        keyword,
        "ignore-this-file",
    ) || str_eq(keyword, "inline-chorus-markers") || str_eq(keyword, "inline-chorus") || str_eq(
        keyword,
        "white-book-note",
    ) || str_eq(keyword, "origin") || str_eq(keyword, "source")
}

/// Looks a keyword up in the table of metadata keywords.
pub fn classify_meta_keyword(keyword: &str) -> (r: Option<MetaKeyword>)
    ensures
        r == meta_keyword(keyword@),
{
    if str_eq(keyword, "title") || str_eq(keyword, "white-book") || str_eq(
        keyword,
        "white-book-title",
    ) {
        Some(MetaKeyword::Title)
    } else if str_eq(keyword, "alt-title") {
        Some(MetaKeyword::AltTitle)
    } else if str_eq(keyword, "attrib") || str_eq(keyword, "author") {
        Some(MetaKeyword::Attrib)
    } else if str_eq(keyword, "ref") || str_eq(keyword, "xref") {
        Some(MetaKeyword::CrossRef)
    } else if str_eq(keyword, "category") {
        Some(MetaKeyword::Category)
    } else if str_eq(keyword, "index") {
        Some(MetaKeyword::IndexEntry)
    } else if str_eq(keyword, "lang") {
        Some(MetaKeyword::Language)
    } else if str_eq(keyword, "dance") {
        Some(MetaKeyword::Dance)
    } else if str_eq(keyword, "descant") {
        Some(MetaKeyword::Descant)
    } else if is_ignored(keyword) {
        Some(MetaKeyword::Ignored)
    } else {
        None
    }
}

/// The metadata entry that a form of the metadata block stands for.
pub open spec fn meta_entry(sexp: SexpView) -> Result<MetadataView, ErrorView> {
    match meta_keyword(sexp.keyword) {
        None => Err(ErrorView { kind: ErrorKind::UnrecognizedKeyword, subject: sexp.keyword }),
        Some(MetaKeyword::Title) => match formatted(sexp.items) {
            Ok(t) => Ok(MetadataView::Title(t)),
            Err(e) => Err(e),
        },
        Some(MetaKeyword::AltTitle) => match formatted(sexp.items) {
            Ok(t) => Ok(MetadataView::AltTitle(t)),
            Err(e) => Err(e),
        },
        Some(MetaKeyword::Attrib) => match formatted(sexp.items) {
            Ok(t) => Ok(MetadataView::Attrib(t)),
            Err(e) => Err(e),
        },
        Some(MetaKeyword::CrossRef) => match formatted(sexp.items) {
            Ok(t) => Ok(MetadataView::CrossRef(t)),
            Err(e) => Err(e),
        },
        Some(MetaKeyword::Category) => match string_item_of(sexp.keyword, sexp.items) {
            Ok(s) => Ok(MetadataView::Category(s)),
            Err(e) => Err(e),
        },
        Some(MetaKeyword::IndexEntry) => match string_item_of(sexp.keyword, sexp.items) {
            Ok(s) => Ok(MetadataView::IndexEntry(s)),
            Err(e) => Err(e),
        },
        Some(MetaKeyword::Language) => match string_item_of(sexp.keyword, sexp.items) {
            Ok(s) => Ok(MetadataView::Language(s)),
            Err(e) => Err(e),
        },
        Some(MetaKeyword::Dance) => match string_item_of(sexp.keyword, sexp.items) {
            Ok(s) => Ok(MetadataView::Dance(s)),
            Err(e) => Err(e),
        },
        Some(MetaKeyword::Descant) => if sexp.items.len() > 0 {
            Err(ErrorView { kind: ErrorKind::WrongArity, subject: sexp.keyword })
        } else {
            Ok(MetadataView::Descant)
        },
        Some(MetaKeyword::Ignored) => Ok(MetadataView::Ignored),
    }
}

/// One form of the metadata block.
pub fn tr_meta_entry(sexp: &Sexp) -> (r: Result<Metadata, Error>)
    ensures
        match r {
            Ok(m) => meta_entry(sexp@) == Ok::<MetadataView, ErrorView>(m@),
            Err(e) => meta_entry(sexp@) == Err::<MetadataView, ErrorView>(e@),
        },
{
    match classify_meta_keyword(sexp.keyword) {
        None => Err(Error::new(ErrorKind::UnrecognizedKeyword, sexp.keyword)),
        Some(MetaKeyword::Title) => match tr_formatted_text(&sexp.items) {
            Ok(t) => Ok(Metadata::Title(t)),
            Err(e) => Err(e),
        },
        Some(MetaKeyword::AltTitle) => match tr_formatted_text(&sexp.items) {
            Ok(t) => Ok(Metadata::AltTitle(t)),
            Err(e) => Err(e),
        },
        Some(MetaKeyword::Attrib) => match tr_formatted_text(&sexp.items) {
            Ok(t) => Ok(Metadata::Attrib(t)),
            Err(e) => Err(e),
        },
        Some(MetaKeyword::CrossRef) => match tr_formatted_text(&sexp.items) {
            Ok(t) => Ok(Metadata::CrossRef(t)),
            Err(e) => Err(e),
        },
        Some(MetaKeyword::Category) => match sexp.string_item() {
            Ok(s) => Ok(Metadata::Category(String::from_str(s))),
            Err(e) => Err(e),
        },
        Some(MetaKeyword::IndexEntry) => match sexp.string_item() {
            Ok(s) => Ok(Metadata::IndexEntry(String::from_str(s))),
            Err(e) => Err(e),
        },
        Some(MetaKeyword::Language) => match sexp.string_item() {
            Ok(s) => Ok(Metadata::Language(String::from_str(s))),
            Err(e) => Err(e),
        },
        Some(MetaKeyword::Dance) => match sexp.string_item() {
            Ok(s) => Ok(Metadata::Dance(String::from_str(s))),
            Err(e) => Err(e),
        },
        Some(MetaKeyword::Descant) => if sexp.has_args() {
            Err(Error::new(ErrorKind::WrongArity, sexp.keyword))
        } else {
            Ok(Metadata::Descant)
        },
        Some(MetaKeyword::Ignored) => Ok(Metadata::Ignored),
    }
}

/// What one item of the metadata block yields: nothing for blank text, a failure for
/// other text, an entry or a failure for a form.
pub open spec fn meta_item(item: ItemView) -> Result<Seq<MetadataView>, ErrorView> {
    match item {
        ItemView::Text(s) => if all_white_space(s) {
            Ok(Seq::empty())
        } else {
            Err(ErrorView { kind: ErrorKind::TextInMetadata, subject: s })
        },
        ItemView::Sexp(sexp) => match meta_entry(sexp) {
            Ok(m) => Ok(seq![m]),
            Err(e) => Err(e),
        },
    }
}

/// The entries that a run of items of the metadata block yields, in order; the first
/// failure in reading order, if any.
pub open spec fn meta_items(items: Seq<ItemView>) -> Result<Seq<MetadataView>, ErrorView>
    decreases items.len(),
{
    if items.len() == 0 {
        Ok(Seq::empty())
    } else {
        match meta_item(items[0]) {
            Err(e) => Err(e),
            Ok(first) => after(first, meta_items(items.drop_first())),
        }
    }
}

/// The entries of the metadata block: those of each line's items, line after line.
pub open spec fn meta_block(lines: Seq<LineView>) -> Result<Seq<MetadataView>, ErrorView>
    decreases lines.len(),
{
    if lines.len() == 0 {
        Ok(Seq::empty())
    } else {
        match meta_items(lines[0].items) {
            Err(e) => Err(e),
            Ok(first) => after(first, meta_block(lines.drop_first())),
        }
    }
}

/// Appends to `out` the entries that the items of one line yield.
fn add_meta_items(items: &Vec<Item>, out: &mut Vec<Metadata>) -> (r: Result<(), Error>)
    ensures
        match r {
            Ok(()) => meta_items(items_view(items@)) is Ok && meta_view(final(out)@) == meta_view(
                old(out)@,
            ) + meta_items(items_view(items@))->Ok_0,
            Err(e) => meta_items(items_view(items@)) == Err::<Seq<MetadataView>, ErrorView>(e@),
        },
{
    let ghost all = items_view(items@);
    let ghost out0 = meta_view(out@);
    let ghost added: Seq<MetadataView> = Seq::empty();
    let n = items.len();
    let mut i: usize = 0;
    proof {
        lemma_items_view(items@);
        assert(all.subrange(0, n as int) =~= all);
        assert(out0 + added =~= out0);
        if meta_items(all) is Ok {
            assert(added + meta_items(all)->Ok_0 =~= meta_items(all)->Ok_0);
        }
    }
    while i < n
        invariant
            n == items@.len(),
            i <= n,
            all == items_view(items@),
            all.len() == n,
            forall|k: int| 0 <= k < n ==> (#[trigger] all[k]) == items@[k]@,
            meta_view(out@) == out0 + added,
            meta_items(all) == after(added, meta_items(all.subrange(i as int, n as int))),
        decreases n - i,
    {
        let ghost rest = all.subrange(i as int, n as int);
        proof {
            assert(rest[0] == all[i as int]);
            assert(rest.drop_first() =~= all.subrange(i + 1, n as int));
        }
        let ghost tail = meta_items(rest.drop_first());
        match &items[i] {
            Item::Text(s) => {
                if !str_is_whitespace(s) {
                    return Err(Error::new(ErrorKind::TextInMetadata, s));
                }
                proof {
                    if tail is Ok {
                        assert(Seq::<MetadataView>::empty() + tail->Ok_0 =~= tail->Ok_0);
                    }
                }
            },
            Item::Sexp(sexp) => {
                match tr_meta_entry(sexp) {
                    Ok(m) => {
                        let ghost old_out = out@;
                        out.push(m);
                        proof {
                            assert(meta_view(old_out.push(m)) =~= meta_view(old_out).push(m@));
                            assert(out0 + added.push(m@) =~= (out0 + added).push(m@));
                            if tail is Ok {
                                assert(added + (seq![m@] + tail->Ok_0) =~= added.push(m@)
                                    + tail->Ok_0);
                            }
                            added = added.push(m@);
                        }
                    },
                    Err(e) => {
                        return Err(e);
                    },
                }
            },
        }
        i += 1;
    }
    proof {
        assert(added + Seq::<MetadataView>::empty() =~= added);
    }
    Ok(())
}

/// The metadata block: the entries of its forms, in order. Blank text between the forms
/// is passed over; other text is a failure.
pub fn tr_meta_block(src: &Vec<Line>) -> (r: Result<Vec<Metadata>, Error>)
    ensures
        match r {
            Ok(meta) => meta_block(block_view(src@)) == Ok::<Seq<MetadataView>, ErrorView>(
                meta_view(meta@),
            ),
            Err(e) => meta_block(block_view(src@)) == Err::<Seq<MetadataView>, ErrorView>(e@),
        },
{
    let ghost all = block_view(src@);
    let mut out: Vec<Metadata> = Vec::new();
    let n = src.len();
    let mut i: usize = 0;
    proof {
        assert(all.subrange(0, n as int) =~= all);
        assert(meta_view(out@) =~= Seq::empty());
        if meta_block(all) is Ok {
            assert(meta_view(out@) + meta_block(all)->Ok_0 =~= meta_block(all)->Ok_0);
        }
    }
    while i < n
        invariant
            n == src@.len(),
            i <= n,
            all == block_view(src@),
            meta_block(all) == after(meta_view(out@), meta_block(all.subrange(i as int, n as int))),
        decreases n - i,
    {
        let ghost rest = all.subrange(i as int, n as int);
        let ghost done = meta_view(out@);
        proof {
            assert(rest[0] == src@[i as int]@);
            assert(rest.drop_first() =~= all.subrange(i + 1, n as int));
        }
        match add_meta_items(&src[i].items, &mut out) {
            Ok(()) => {
                proof {
                    let first = meta_items(src@[i as int]@.items)->Ok_0;
                    let tail = meta_block(rest.drop_first());
                    if tail is Ok {
                        assert(done + (first + tail->Ok_0) =~= (done + first) + tail->Ok_0);
                    }
                }
            },
            Err(e) => {
                return Err(e);
            },
        }
        i += 1;
    }
    proof {
        assert(meta_view(out@) + Seq::<MetadataView>::empty() =~= meta_view(out@));
    }
    Ok(out)
}

/// The entries of two runs of items, one after the other, are the entries of the first
/// followed by those of the second; a failure in the first comes first.
pub proof fn lemma_meta_items_split(a: Seq<ItemView>, b: Seq<ItemView>)
    ensures
        meta_items(a + b) == match meta_items(a) {
            Err(e) => Err(e),
            Ok(first) => after(first, meta_items(b)),
        },
    decreases a.len(),
{
    if a.len() == 0 {
        assert(a + b =~= b);
        if let Ok(more) = meta_items(b) {
            assert(Seq::<MetadataView>::empty() + more =~= more);
        }
    } else {
        assert((a + b)[0] == a[0]);
        assert((a + b).drop_first() =~= a.drop_first() + b);
        lemma_meta_items_split(a.drop_first(), b);
        if let Ok(x) = meta_item(a[0]) {
            if let Ok(y) = meta_items(a.drop_first()) {
                if let Ok(z) = meta_items(b) {
                    assert(x + (y + z) =~= (x + y) + z);
                }
            }
        }
    }
}

/// The entries of two runs of lines, one after the other, are the entries of the first
/// followed by those of the second; a failure in the first comes first.
pub proof fn lemma_meta_block_split(a: Seq<LineView>, b: Seq<LineView>)
    ensures
        meta_block(a + b) == match meta_block(a) {
            Err(e) => Err(e),
            Ok(first) => after(first, meta_block(b)),
        },
    decreases a.len(),
{
    if a.len() == 0 {
        assert(a + b =~= b);
        if let Ok(more) = meta_block(b) {
            assert(Seq::<MetadataView>::empty() + more =~= more);
        }
    } else {
        assert((a + b)[0] == a[0]);
        assert((a + b).drop_first() =~= a.drop_first() + b);
        lemma_meta_block_split(a.drop_first(), b);
        if let Ok(x) = meta_items(a[0].items) {
            if let Ok(y) = meta_block(a.drop_first()) {
                if let Ok(z) = meta_block(b) {
                    assert(x + (y + z) =~= (x + y) + z);
                }
            }
        }
    }
}

/// One failing item makes the metadata block fail; where nothing before it fails, with
/// the failure of that item.
pub proof fn lemma_failing_meta_item(lines: Seq<LineView>, i: int, j: int)
    requires
        0 <= i < lines.len(),
        0 <= j < lines[i].items.len(),
        meta_item(lines[i].items[j]) is Err,
    ensures
        meta_block(lines) is Err,
        meta_block(lines.subrange(0, i)) is Ok && meta_items(lines[i].items.subrange(0, j)) is Ok
            ==> meta_block(lines) == Err::<Seq<MetadataView>, ErrorView>(
            meta_item(lines[i].items[j])->Err_0,
        ),
{
    let items = lines[i].items;
    let before = items.subrange(0, j);
    let from = items.subrange(j, items.len() as int);
    assert(before + from =~= items);
    assert(from[0] == items[j]);
    lemma_meta_items_split(before, from);
    let above = lines.subrange(0, i);
    let below = lines.subrange(i, lines.len() as int);
    assert(above + below =~= lines);
    assert(below[0] == lines[i]);
    lemma_meta_block_split(above, below);
}

/// A form of the metadata block whose keyword is not in the table is a failure of the
/// kind `UnrecognizedKeyword`, and the block that holds it fails to translate; where
/// nothing before the form fails, with that failure.
pub proof fn law_keyword_outside_table(lines: Seq<LineView>, i: int, j: int, sexp: SexpView)
    requires
        0 <= i < lines.len(),
        0 <= j < lines[i].items.len(),
        lines[i].items[j] == ItemView::Sexp(sexp),
        meta_keyword(sexp.keyword) is None,
    ensures
        meta_entry(sexp) == Err::<MetadataView, ErrorView>(
            ErrorView { kind: ErrorKind::UnrecognizedKeyword, subject: sexp.keyword },
        ),
        meta_block(lines) is Err,
        meta_block(lines.subrange(0, i)) is Ok && meta_items(lines[i].items.subrange(0, j)) is Ok
            ==> meta_block(lines) == Err::<Seq<MetadataView>, ErrorView>(
            ErrorView { kind: ErrorKind::UnrecognizedKeyword, subject: sexp.keyword },
        ),
{
    lemma_failing_meta_item(lines, i, j);
}

/// A `descant` form with a child is a failure of the kind `WrongArity`, and the block
/// that holds it fails to translate; where nothing before the form fails, with that
/// failure.
pub proof fn law_descant_takes_no_children(lines: Seq<LineView>, i: int, j: int, sexp: SexpView)
    requires
        0 <= i < lines.len(),
        0 <= j < lines[i].items.len(),
        lines[i].items[j] == ItemView::Sexp(sexp),
        sexp.keyword == "descant"@,
        sexp.items.len() > 0,
    ensures
        meta_entry(sexp) == Err::<MetadataView, ErrorView>(
            ErrorView { kind: ErrorKind::WrongArity, subject: sexp.keyword },
        ),
        meta_block(lines) is Err,
        meta_block(lines.subrange(0, i)) is Ok && meta_items(lines[i].items.subrange(0, j)) is Ok
            ==> meta_block(lines) == Err::<Seq<MetadataView>, ErrorView>(
            ErrorView { kind: ErrorKind::WrongArity, subject: sexp.keyword },
        ),
{
    reveal_strlit("descant");
    reveal_strlit("title");
    reveal_strlit("white-book");
    reveal_strlit("white-book-title");
    reveal_strlit("alt-title");
    reveal_strlit("attrib");
    reveal_strlit("author");
    reveal_strlit("ref");
    reveal_strlit("xref");
    reveal_strlit("category");
    reveal_strlit("index");
    reveal_strlit("lang");
    reveal_strlit("dance");
    assert("descant"@.len() == 7);
    assert(meta_keyword(sexp.keyword) == Some(MetaKeyword::Descant));
    lemma_failing_meta_item(lines, i, j);
}

/// The entries of a metadata block are well formed.
pub proof fn lemma_meta_items_well_formed(items: Seq<ItemView>)
    ensures
        meta_items(items) matches Ok(entries) ==> forall|i: int|
            0 <= i < entries.len() ==> (#[trigger] entries[i]).well_formed(),
    decreases items.len(),
{
    if items.len() > 0 {
        lemma_meta_items_well_formed(items.drop_first());
        if let ItemView::Sexp(sexp) = items[0] {
            lemma_formatted_well_formed(sexp.items);
        }
    }
}

/// The entries of a metadata block are well formed.
pub proof fn lemma_meta_block_well_formed(lines: Seq<LineView>)
    ensures
        meta_block(lines) matches Ok(entries) ==> forall|i: int|
            0 <= i < entries.len() ==> (#[trigger] entries[i]).well_formed(),
    decreases lines.len(),
{
    if lines.len() > 0 {
        lemma_meta_block_well_formed(lines.drop_first());
        lemma_meta_items_well_formed(lines[0].items);
    }
}

} // verus!
