//! Formatted content: the text and the style spans that a run of items stands for.

use vstd::prelude::*;
use vstd::string::*;
use crate::error::{Error, ErrorKind, ErrorView};
use crate::model::{
    FormattedText, FormattedTextView, Span, SpanView, Style, apart_or_nested, spans_laminar,
    spans_view, spans_within,
};
use crate::syntax::{Item, ItemView, SexpView, item_view, items_view, lemma_items_view};
use crate::text::{
    all_white_space, byte_len, lemma_encode_concat, str_eq, str_is_whitespace, utf8_len,
};

verus! {

/// The formatting commands that set their content in italics.
pub open spec fn is_italic_keyword(keyword: Seq<char>) -> bool {
    keyword == "italic"@ || keyword == "note"@ || keyword == "footnote"@
}

/// The text that an item adds to a buffer.
pub open spec fn item_text(item: ItemView) -> Seq<char>
    decreases item,
{
    match item {
        ItemView::Text(s) => s,
        ItemView::Sexp(sexp) => if is_italic_keyword(sexp.keyword) {
            items_text(sexp.items)
        } else {
            "…"@
        },
    }
}

/// The text that a run of items adds to a buffer.
pub open spec fn items_text(items: Seq<ItemView>) -> Seq<char>
    decreases items,
{
    if items.len() == 0 {
        Seq::empty()
    } else {
        items_text(items.drop_last()) + item_text(items.last())
    }
}

/// The spans that an item adds, where the buffer holds `base` bytes before it:
/// those of its children, then its own.
pub open spec fn item_spans(item: ItemView, base: nat) -> Seq<SpanView>
    decreases item,
{
    match item {
        ItemView::Text(_) => Seq::empty(),
        ItemView::Sexp(sexp) => if is_italic_keyword(sexp.keyword) {
            items_spans(sexp.items, base).push(
                SpanView {
                    start: base,
                    end: base + utf8_len(items_text(sexp.items)),
                    style: Style::Italic,
                },
            )
        } else {
            Seq::empty()
        },
    }
}

/// The spans that a run of items adds, where the buffer holds `base` bytes before it.
pub open spec fn items_spans(items: Seq<ItemView>, base: nat) -> Seq<SpanView>
    decreases items,
{
    if items.len() == 0 {
        Seq::empty()
    } else {
        items_spans(items.drop_last(), base) + item_spans(
            items.last(),
            base + utf8_len(items_text(items.drop_last())),
        )
    }
}

/// Why an item cannot stand in formatted content, if it cannot.
pub open spec fn item_error(item: ItemView) -> Option<ErrorView>
    decreases item,
{
    match item {
        ItemView::Text(_) => None,
        ItemView::Sexp(sexp) => if is_italic_keyword(sexp.keyword) {
            items_error(sexp.items)
        } else if sexp.keyword == "..."@ {
            if sexp.items.len() > 0 {
                Some(ErrorView { kind: ErrorKind::WrongArity, subject: sexp.keyword })
            } else {
                None
            }
        } else {
            Some(ErrorView { kind: ErrorKind::UnrecognizedFormatting, subject: sexp.keyword })
        },
    }
}

/// The first failure among a run of items, in reading order.
pub open spec fn items_error(items: Seq<ItemView>) -> Option<ErrorView>
    decreases items,
{
    if items.len() == 0 {
        None
    } else {
        match items_error(items.drop_last()) {
            Some(e) => Some(e),
            None => item_error(items.last()),
        }
    }
}

/// Formatted content made of a run of items: their text, their spans, no indent.
pub open spec fn formatted(items: Seq<ItemView>) -> Result<FormattedTextView, ErrorView> {
    match items_error(items) {
        Some(e) => Err(e),
        None => Ok(
            FormattedTextView {
                text: items_text(items),
                formatting: items_spans(items, 0),
                indent: 0,
            },
        ),
    }
}

/// A failure in a prefix of the items is the failure of the whole run.
pub proof fn lemma_items_error_prefix(items: Seq<ItemView>, k: int)
    requires
        0 <= k <= items.len(),
        items_error(items.subrange(0, k)) is Some,
    ensures
        items_error(items) == items_error(items.subrange(0, k)),
    decreases items.len() - k,
{
    if k < items.len() {
        assert(items.subrange(0, k + 1).drop_last() =~= items.subrange(0, k));
        lemma_items_error_prefix(items, k + 1);
    } else {
        assert(items.subrange(0, k) =~= items);
    }
}

/// A text is no longer in bytes than a text that it begins.
pub proof fn lemma_prefix_bytes(a: Seq<char>, b: Seq<char>)
    requires
        a.is_prefix_of(b),
    ensures
        utf8_len(a) <= utf8_len(b),
{
    let rest = b.subrange(a.len() as int, b.len() as int);
    assert(b =~= a + rest);
    lemma_encode_concat(a, rest);
}

/// Formatted text that has grown from well-formed text is well formed.
pub proof fn lemma_grown_well_formed(before: FormattedTextView, after: FormattedTextView)
    requires
        before.well_formed(),
        after.grown_from(before),
    ensures
        after.well_formed(),
{
    let n = before.formatting.len() as int;
    let new = after.spans_since(before);
    let mid = utf8_len(before.text);
    lemma_prefix_bytes(before.text, after.text);
    assert forall|i: int| 0 <= i < after.formatting.len() implies (if i < n {
        (#[trigger] after.formatting[i]) == before.formatting[i]
    } else {
        after.formatting[i] == new[i - n]
    }) by {
        if i < n {
            assert(after.formatting.subrange(0, n)[i] == after.formatting[i]);
        }
    }
    assert forall|i: int| 0 <= i < after.formatting.len() implies 0 <= (
    #[trigger] after.formatting[i]).start <= after.formatting[i].end <= utf8_len(after.text) by {
        if i < n {
            assert(before.formatting[i].end <= mid);
        } else {
            assert(mid <= new[i - n].start);
        }
    }
    assert forall|i: int, j: int|
        0 <= i < after.formatting.len() && 0 <= j < after.formatting.len() implies apart_or_nested(
        #[trigger] after.formatting[i],
        #[trigger] after.formatting[j],
    ) by {
        if i < n {
            assert(before.formatting[i].end <= mid);
        } else {
            assert(mid <= new[i - n].start);
        }
        if j < n {
            assert(before.formatting[j].end <= mid);
        } else {
            assert(mid <= new[j - n].start);
        }
        if i < n && j < n {
            assert(apart_or_nested(before.formatting[i], before.formatting[j]));
        }
        if i >= n && j >= n {
            assert(apart_or_nested(new[i - n], new[j - n]));
        }
    }
}

/// Formatted text that has grown from text that has grown has grown from the first.
pub proof fn lemma_grown_twice(
    first: FormattedTextView,
    second: FormattedTextView,
    third: FormattedTextView,
)
    requires
        second.grown_from(first),
        third.grown_from(second),
    ensures
        third.grown_from(first),
{
    let a = first.formatting.len() as int;
    let b = second.formatting.len() as int;
    let early = second.spans_since(first);
    let late = third.spans_since(second);
    let all = third.spans_since(first);
    let lo = utf8_len(first.text);
    let mid = utf8_len(second.text);
    lemma_prefix_bytes(first.text, second.text);
    lemma_prefix_bytes(second.text, third.text);
    assert(first.text.is_prefix_of(third.text)) by {
        assert(first.text =~= third.text.subrange(0, first.text.len() as int)) by {
            assert forall|i: int| 0 <= i < first.text.len() implies first.text[i]
                == third.text[i] by {
                assert(second.text.subrange(0, first.text.len() as int)[i] == second.text[i]);
                assert(third.text.subrange(0, second.text.len() as int)[i] == third.text[i]);
            }
        }
    }
    assert forall|i: int| 0 <= i < b implies second.formatting[i] == third.formatting[i] by {
        assert(third.formatting.subrange(0, b)[i] == third.formatting[i]);
    }
    assert forall|i: int| 0 <= i < a implies first.formatting[i] == third.formatting[i] by {
        assert(second.formatting.subrange(0, a)[i] == second.formatting[i]);
    }
    assert(first.formatting =~= third.formatting.subrange(0, a));
    assert forall|i: int| 0 <= i < all.len() implies (if i < b - a {
        (#[trigger] all[i]) == early[i]
    } else {
        all[i] == late[i - (b - a)]
    }) by {}
    assert forall|i: int| 0 <= i < all.len() implies lo <= (#[trigger] all[i]).start
        <= all[i].end <= utf8_len(third.text) by {
        if i < b - a {
            assert(early[i].end <= mid);
        } else {
            assert(mid <= late[i - (b - a)].start);
        }
    }
    assert forall|i: int, j: int| 0 <= i < all.len() && 0 <= j < all.len() implies apart_or_nested(
        #[trigger] all[i],
        #[trigger] all[j],
    ) by {
        if i < b - a {
            assert(early[i].end <= mid);
        } else {
            assert(mid <= late[i - (b - a)].start);
        }
        if j < b - a {
            assert(early[j].end <= mid);
        } else {
            assert(mid <= late[j - (b - a)].start);
        }
        if i < b - a && j < b - a {
            assert(apart_or_nested(early[i], early[j]));
        }
        if i >= b - a && j >= b - a {
            assert(apart_or_nested(late[i - (b - a)], late[j - (b - a)]));
        }
    }
}

/// Formatted text with the text and the spans of a run of items appended has grown from
/// what it was.
pub proof fn lemma_grown_by_items(before: FormattedTextView, items: Seq<ItemView>)
    ensures
        (FormattedTextView {
            text: before.text + items_text(items),
            formatting: before.formatting + items_spans(items, utf8_len(before.text)),
            indent: before.indent,
        }).grown_from(before),
{
    let base = utf8_len(before.text);
    let after = FormattedTextView {
        text: before.text + items_text(items),
        formatting: before.formatting + items_spans(items, base),
        indent: before.indent,
    };
    lemma_items_spans_shape(items, base);
    lemma_encode_concat(before.text, items_text(items));
    assert(before.text =~= after.text.subrange(0, before.text.len() as int));
    assert(before.formatting =~= after.formatting.subrange(0, before.formatting.len() as int));
    assert(after.spans_since(before) =~= items_spans(items, base));
}

fn is_italic(keyword: &str) -> (b: bool)
    ensures
        b == is_italic_keyword(keyword@),
{
    str_eq(keyword, "italic") || str_eq(keyword, "note") || str_eq(keyword, "footnote")
}

/// Appends the text and spans of `src` to `ft`.
pub fn add_formatted_text(src: &Vec<Item>, ft: &mut FormattedText) -> (r: Result<(), Error>)
    ensures
        match r {
            Ok(()) => {
                &&& items_error(items_view(src@)) is None
                &&& final(ft)@.text == old(ft)@.text + items_text(items_view(src@))
                &&& final(ft)@.formatting == old(ft)@.formatting + items_spans(
                    items_view(src@),
                    utf8_len(old(ft)@.text),
                )
                &&& final(ft)@.indent == old(ft)@.indent
            },
            Err(e) => items_error(items_view(src@)) == Some(e@),
        },
        final(ft)@.grown_from(old(ft)@),
        old(ft)@.well_formed() ==> final(ft)@.well_formed(),
    decreases src,
{
    let ghost all = items_view(src@);
    let ghost ft0 = ft@;
    let ghost text0 = ft@.text;
    let ghost spans0 = ft@.formatting;
    let ghost indent0 = ft@.indent;
    let ghost base = utf8_len(text0);
    let n = src.len();
    let mut i: usize = 0;
    proof {
        lemma_items_view(src@);
        assert(ft@.text =~= text0 + items_text(all.subrange(0, 0)));
        assert(ft@.formatting =~= spans0 + items_spans(all.subrange(0, 0), base));
    }
    while i < n
        invariant
            n == src@.len(),
            i <= n,
            all == items_view(src@),
            all.len() == n,
            forall|k: int| 0 <= k < n ==> (#[trigger] all[k]) == item_view(src@[k]),
            base == utf8_len(text0),
            ft0 == old(ft)@,
            ft0 == (FormattedTextView { text: text0, formatting: spans0, indent: indent0 }),
            items_error(all.subrange(0, i as int)) is None,
            ft@.text == text0 + items_text(all.subrange(0, i as int)),
            ft@.formatting == spans0 + items_spans(all.subrange(0, i as int), base),
            ft@.indent == indent0,
        decreases n - i,
    {
        let ghost upto = all.subrange(0, i + 1);
        let ghost before = all.subrange(0, i as int);
        let ghost text1 = ft@.text;
        let ghost spans1 = ft@.formatting;
        let ghost at = base + utf8_len(items_text(before));
        let ghost so_far = ft@;
        proof {
            lemma_grown_by_items(ft0, before);
            assert(so_far == (FormattedTextView {
                text: text0 + items_text(before),
                formatting: spans0 + items_spans(before, base),
                indent: indent0,
            }));
            if ft0.well_formed() {
                lemma_grown_well_formed(ft0, so_far);
            }
            assert(upto.drop_last() =~= before);
            assert(upto.last() == all[i as int]);
            assert(all[i as int] == item_view(src@[i as int]));
            lemma_encode_concat(text0, items_text(before));
        }
        match &src[i] {
            Item::Text(s) => {
                ft.text.append(s);
                proof {
                    assert(ft@.formatting =~= spans1 + item_spans(all[i as int], at));
                }
            },
            Item::Sexp(sexp) => {
                let ghost inside = items_view(sexp.items@);
                if is_italic(sexp.keyword) {
                    let start = byte_len(ft.text.as_str());
                    match add_formatted_text(&sexp.items, ft) {
                        Ok(()) => {},
                        Err(e) => {
                            proof {
                                assert(item_error(all[i as int]) == Some(e@));
                                assert(items_error(upto) == Some(e@));
                                lemma_items_error_prefix(all, i + 1);
                                lemma_grown_twice(ft0, so_far, ft@);
                                if ft0.well_formed() {
                                    lemma_grown_well_formed(ft0, ft@);
                                }
                            }
                            return Err(e);
                        },
                    }
                    let end = byte_len(ft.text.as_str());
                    let ghost inner = ft.formatting@;
                    let span = Span { start, end, style: Style::Italic };
                    ft.formatting.push(span);
                    proof {
                        lemma_encode_concat(text1, items_text(inside));
                        assert(start == at);
                        assert(end == at + utf8_len(items_text(inside)));
                        assert(spans_view(inner.push(span)) =~= spans_view(inner).push(span@));
                        assert(spans_view(inner) == spans1 + items_spans(inside, at));
                        assert(item_spans(all[i as int], at) == items_spans(inside, at).push(span@));
                        assert(ft@.formatting =~= spans1 + item_spans(all[i as int], at));
                    }
                } else if str_eq(sexp.keyword, "...") {
                    if sexp.items.len() > 0 {
                        let e = Error::new(ErrorKind::WrongArity, sexp.keyword);
                        proof {
                            lemma_items_view(sexp.items@);
                            assert(item_error(all[i as int]) == Some(e@));
                            assert(items_error(upto) == Some(e@));
                            lemma_items_error_prefix(all, i + 1);
                        }
                        return Err(e);
                    }
                    ft.text.append("…");
                    proof {
                        lemma_items_view(sexp.items@);
                        assert(ft@.formatting =~= spans1 + item_spans(all[i as int], at));
                    }
                } else {
                    let e = Error::new(ErrorKind::UnrecognizedFormatting, sexp.keyword);
                    proof {
                        assert(item_error(all[i as int]) == Some(e@));
                        assert(items_error(upto) == Some(e@));
                        lemma_items_error_prefix(all, i + 1);
                    }
                    return Err(e);
                }
            },
        }
        proof {
            assert(item_error(all[i as int]) is None);
            assert(ft@.text == text1 + item_text(all[i as int]));
            assert(ft@.text =~= text0 + items_text(upto));
            assert(ft@.formatting =~= spans0 + items_spans(upto, base));
        }
        i += 1;
    }
    proof {
        assert(all.subrange(0, n as int) =~= all);
        lemma_grown_by_items(ft0, all);
        assert(ft@ == (FormattedTextView {
            text: text0 + items_text(all),
            formatting: spans0 + items_spans(all, base),
            indent: indent0,
        }));
        if ft0.well_formed() {
            lemma_grown_well_formed(ft0, ft@);
        }
    }
    Ok(())
}

/// Formatted content made of a run of items.
pub fn tr_formatted_text(src: &Vec<Item>) -> (r: Result<FormattedText, Error>)
    ensures
        match r {
            Ok(ft) => formatted(items_view(src@)) == Ok::<FormattedTextView, ErrorView>(ft@),
            Err(e) => formatted(items_view(src@)) == Err::<FormattedTextView, ErrorView>(e@),
        },
        r matches Ok(ft) ==> ft@.well_formed(),
{
    let mut ft = FormattedText::new();
    match add_formatted_text(src, &mut ft) {
        Ok(()) => {
            proof {
                assert(ft@.text =~= items_text(items_view(src@)));
                assert(ft@.formatting =~= items_spans(items_view(src@), 0));
                lemma_formatted_well_formed(items_view(src@));
            }
            Ok(ft)
        },
        Err(e) => Err(e),
    }
}

/// `done` followed by what `rest` yields, or the failure of `rest`.
pub open spec fn after<T>(done: Seq<T>, rest: Result<Seq<T>, ErrorView>) -> Result<
    Seq<T>,
    ErrorView,
> {
    match rest {
        Ok(more) => Ok(done + more),
        Err(e) => Err(e),
    }
}

/// An item that is text of nothing but white space.
pub open spec fn is_blank(item: ItemView) -> bool {
    match item {
        ItemView::Text(s) => all_white_space(s),
        ItemView::Sexp(_) => false,
    }
}

/// Whether an item is text of nothing but white space.
pub fn is_blank_item(item: &Item) -> (b: bool)
    ensures
        b == is_blank(item@),
{
    match item {
        Item::Text(s) => str_is_whitespace(s),
        Item::Sexp(_) => false,
    }
}

/// The spans that an item adds lie within the bytes that it adds, and no two of them
/// overlap in part.
pub proof fn lemma_item_spans_shape(item: ItemView, base: nat)
    ensures
        spans_within(item_spans(item, base), base, base + utf8_len(item_text(item))),
        spans_laminar(item_spans(item, base)),
    decreases item, 0nat,
{
    match item {
        ItemView::Text(_) => {},
        ItemView::Sexp(sexp) => {
            if is_italic_keyword(sexp.keyword) {
                lemma_items_spans_shape(sexp.items, base);
                let inner = items_spans(sexp.items, base);
                let end = base + utf8_len(items_text(sexp.items));
                let own = SpanView { start: base, end, style: Style::Italic };
                let all = item_spans(item, base);
                assert(all == inner.push(own));
                assert forall|i: int| 0 <= i < all.len() implies base <= (#[trigger] all[i]).start
                    <= all[i].end <= end by {
                    if i < inner.len() {
                        assert(all[i] == inner[i]);
                    }
                }
                assert forall|i: int, j: int|
                    0 <= i < all.len() && 0 <= j < all.len() implies apart_or_nested(
                    #[trigger] all[i],
                    #[trigger] all[j],
                ) by {
                    if i < inner.len() {
                        assert(all[i] == inner[i]);
                    }
                    if j < inner.len() {
                        assert(all[j] == inner[j]);
                    }
                }
            }
        },
    }
}

/// The spans that a run of items adds lie within the bytes that it adds, and no two of
/// them overlap in part.
pub proof fn lemma_items_spans_shape(items: Seq<ItemView>, base: nat)
    ensures
        spans_within(items_spans(items, base), base, base + utf8_len(items_text(items))),
        spans_laminar(items_spans(items, base)),
    decreases items, 1nat,
{
    if items.len() > 0 {
        let head = items.drop_last();
        let mid = base + utf8_len(items_text(head));
        let end = base + utf8_len(items_text(items));
        lemma_items_spans_shape(head, base);
        lemma_item_spans_shape(items.last(), mid);
        lemma_encode_concat(items_text(head), item_text(items.last()));
        let first = items_spans(head, base);
        let second = item_spans(items.last(), mid);
        let all = items_spans(items, base);
        assert(all == first + second);
        assert forall|i: int| 0 <= i < all.len() implies base <= (#[trigger] all[i]).start
            <= all[i].end <= end by {
            if i < first.len() {
                assert(all[i] == first[i]);
            } else {
                assert(all[i] == second[i - first.len()]);
            }
        }
        assert forall|i: int, j: int|
            0 <= i < all.len() && 0 <= j < all.len() implies apart_or_nested(
            #[trigger] all[i],
            #[trigger] all[j],
        ) by {
            if i < first.len() {
                assert(all[i] == first[i]);
            } else {
                assert(all[i] == second[i - first.len()]);
            }
            if j < first.len() {
                assert(all[j] == first[j]);
            } else {
                assert(all[j] == second[j - first.len()]);
            }
        }
    }
}

/// Formatted content is well formed: its spans lie within its text, and no two of them
/// overlap in part.
pub proof fn lemma_formatted_well_formed(items: Seq<ItemView>)
    ensures
        formatted(items) matches Ok(ft) ==> ft.well_formed(),
{
    lemma_items_spans_shape(items, 0);
}

/// `sexp` stands in `item` itself or within it, at any depth.
pub open spec fn item_holds(item: ItemView, sexp: SexpView) -> bool
    decreases item,
{
    match item {
        ItemView::Text(_) => false,
        ItemView::Sexp(s) => s == sexp || holds(s.items, sexp),
    }
}

/// `sexp` stands among `items` or within one of them, at any depth.
pub open spec fn holds(items: Seq<ItemView>, sexp: SexpView) -> bool
    decreases items,
{
    if items.len() == 0 {
        false
    } else {
        holds(items.drop_last(), sexp) || item_holds(items.last(), sexp)
    }
}

/// A form that cannot stand in formatted content makes every run that holds it fail,
/// at whatever depth it stands.
pub proof fn lemma_failing_form(items: Seq<ItemView>, sexp: SexpView)
    requires
        holds(items, sexp),
        item_error(ItemView::Sexp(sexp)) is Some,
    ensures
        items_error(items) is Some,
    decreases items, 1nat,
{
    if items.len() > 0 {
        if holds(items.drop_last(), sexp) {
            lemma_failing_form(items.drop_last(), sexp);
        } else {
            lemma_failing_form_in_item(items.last(), sexp);
        }
    }
}

/// A form that cannot stand in formatted content makes every item that holds it fail.
pub proof fn lemma_failing_form_in_item(item: ItemView, sexp: SexpView)
    requires
        item_holds(item, sexp),
        item_error(ItemView::Sexp(sexp)) is Some,
    ensures
        item_error(item) is Some,
    decreases item, 0nat,
{
    match item {
        ItemView::Text(_) => {},
        ItemView::Sexp(s) => {
            if s != sexp {
                if is_italic_keyword(s.keyword) {
                    lemma_failing_form(s.items, sexp);
                }
            }
        },
    }
}

/// A `...` form with a child cannot stand in formatted content: it is a failure of the
/// kind `WrongArity`, and whatever holds it, at whatever depth, fails to translate.
pub proof fn law_ellipsis_takes_no_children(items: Seq<ItemView>, sexp: SexpView)
    requires
        sexp.keyword == "..."@,
        sexp.items.len() > 0,
        holds(items, sexp),
    ensures
        item_error(ItemView::Sexp(sexp)) == Some(
            ErrorView { kind: ErrorKind::WrongArity, subject: sexp.keyword },
        ),
        formatted(items) is Err,
{
    reveal_strlit("...");
    reveal_strlit("italic");
    reveal_strlit("note");
    reveal_strlit("footnote");
    assert("..."@.len() == 3);
    lemma_failing_form(items, sexp);
}

} // verus!
