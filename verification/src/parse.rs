//! The markup as it is written: lines of text and bracketed forms, in blocks that blank
//! lines part.
//!
//! A form is written `⟦keyword items⟧`. The keyword runs up to the first white space or
//! bracket; one character of white space after it belongs to neither the keyword nor the
//! items. A form closes on the line on which it opens. The leading white space of a line is
//! its indent. A line of nothing but white space is blank and ends a block.

use vstd::prelude::*;
use vstd::string::*;
use crate::syntax::{
    Item, ItemView, Line, LineView, Sexp, SexpView, block_view, blocks_view, item_view,
    item_written, items_to_text, items_view, items_written, lemma_items_view, sexp_written,
};
use crate::text::{char_is_whitespace, white_space, white_space_known};

verus! {

/// What a scan looks for.
#[derive(Clone, Copy, Debug, PartialEq, Eq, Structural)]
pub enum Stop {
    /// The end of a line.
    LineEnd,
    /// The end of the leading white space.
    IndentEnd,
    /// The end of a keyword: white space or a bracket.
    KeywordEnd,
    /// The end of a run of text: a bracket.
    TextEnd,
}

/// Whether a scan stops at `c`.
pub open spec fn stops(kind: Stop, c: char) -> bool {
    match kind {
        Stop::LineEnd => c == '\n',
        Stop::IndentEnd => !white_space(c),
        Stop::KeywordEnd => white_space(c) || c == '⟦' || c == '⟧',
        Stop::TextEnd => c == '⟦' || c == '⟧',
    }
}

/// The first place from `i` on, before `hi`, at which the scan stops; `hi` if there is
/// none.
pub open spec fn scan(s: Seq<char>, i: int, hi: int, kind: Stop) -> int
    decreases hi - i,
{
    if i >= hi || stops(kind, s[i]) {
        i
    } else {
        scan(s, i + 1, hi, kind)
    }
}

/// A scan ends between where it starts and its bound.
pub proof fn lemma_scan_bounds(s: Seq<char>, i: int, hi: int, kind: Stop)
    requires
        i <= hi,
    ensures
        i <= scan(s, i, hi, kind) <= hi,
    decreases hi - i,
{
    if i < hi && !stops(kind, s[i]) {
        lemma_scan_bounds(s, i + 1, hi, kind);
    }
}

/// Where the form closes whose items start at `i`: the first closing bracket from `i`
/// on, before `hi`, that closes no form opened after `i`; `hi` if there is none. `depth`
/// counts the forms opened since `i` and not closed yet.
pub open spec fn close_of(s: Seq<char>, i: int, hi: int, depth: nat) -> int
    decreases hi - i,
{
    if i >= hi {
        hi
    } else if s[i] == '⟧' {
        if depth == 0 {
            i
        } else {
            close_of(s, i + 1, hi, (depth - 1) as nat)
        }
    } else if s[i] == '⟦' {
        close_of(s, i + 1, hi, depth + 1)
    } else {
        close_of(s, i + 1, hi, depth)
    }
}

/// A form closes between where its items start and the bound.
pub proof fn lemma_close_bounds(s: Seq<char>, i: int, hi: int, depth: nat)
    requires
        i <= hi,
    ensures
        i <= close_of(s, i, hi, depth) <= hi,
    decreases hi - i,
{
    if i < hi {
        if s[i] == '⟧' {
            if depth > 0 {
                lemma_close_bounds(s, i + 1, hi, (depth - 1) as nat);
            }
        } else if s[i] == '⟦' {
            lemma_close_bounds(s, i + 1, hi, depth + 1);
        } else {
            lemma_close_bounds(s, i + 1, hi, depth);
        }
    }
}

/// What is wrong with a text that does not parse.
#[derive(Clone, Copy, Debug, PartialEq, Eq, Structural)]
pub enum Flaw {
    /// A form is opened and not closed on its line.
    Unclosed,
    /// A closing bracket closes nothing.
    StrayClose,
}

/// A text that does not parse: what is wrong, and at which character of the text,
/// counted from 0.
#[derive(Clone, Copy, Debug, PartialEq, Eq, Structural)]
pub struct ParseError {
    pub flaw: Flaw,
    pub at: usize,
}

/// The mathematical value of a [`ParseError`].
pub struct ParseErrorView {
    pub flaw: Flaw,
    pub at: int,
}

impl View for ParseError {
    type V = ParseErrorView;

    open spec fn view(&self) -> ParseErrorView {
        ParseErrorView { flaw: self.flaw, at: self.at as int }
    }
}

/// Where the items of the form that opens at `i` start: after the keyword, and after one
/// character of white space if one follows the keyword.
pub open spec fn items_start(s: Seq<char>, i: int, hi: int) -> int {
    let k = scan(s, i + 1, hi, Stop::KeywordEnd);
    if k < hi && white_space(s[k]) {
        k + 1
    } else {
        k
    }
}

/// `first`, then what `rest` yields; or the failure of `rest`.
pub open spec fn then_items(first: ItemView, rest: Result<Seq<ItemView>, ParseErrorView>) -> Result<
    Seq<ItemView>,
    ParseErrorView,
> {
    match rest {
        Ok(more) => Ok(seq![first] + more),
        Err(e) => Err(e),
    }
}

/// The items written in the characters from `lo` up to `hi`.
///
/// A run of characters other than brackets is text. An opening bracket opens a form: its
/// keyword follows, then its items, up to the bracket that closes it. A form that does not
/// close before `hi`, and a closing bracket that closes nothing, are flaws.
pub open spec fn items_in(s: Seq<char>, lo: int, hi: int) -> Result<
    Seq<ItemView>,
    ParseErrorView,
>
    decreases hi - lo,
{
    if lo >= hi {
        Ok(Seq::empty())
    } else if s[lo] == '⟧' {
        Err(ParseErrorView { flaw: Flaw::StrayClose, at: lo })
    } else if s[lo] == '⟦' {
        let k = scan(s, lo + 1, hi, Stop::KeywordEnd);
        let start = items_start(s, lo, hi);
        let close = close_of(s, start, hi, 0);
        proof {
            lemma_scan_bounds(s, lo + 1, hi, Stop::KeywordEnd);
            lemma_close_bounds(s, start, hi, 0);
        }
        if close >= hi {
            Err(ParseErrorView { flaw: Flaw::Unclosed, at: lo })
        } else {
            match items_in(s, start, close) {
                Err(e) => Err(e),
                Ok(inner) => then_items(
                    ItemView::Sexp(SexpView { keyword: s.subrange(lo + 1, k), items: inner }),
                    items_in(s, close + 1, hi),
                ),
            }
        }
    } else {
        let k = scan(s, lo + 1, hi, Stop::TextEnd);
        proof {
            lemma_scan_bounds(s, lo + 1, hi, Stop::TextEnd);
        }
        then_items(ItemView::Text(s.subrange(lo, k)), items_in(s, k, hi))
    }
}

/// The line written in the characters from `a` up to `b`: none if it is blank, else its
/// indent and its items.
pub open spec fn line_in(s: Seq<char>, a: int, b: int) -> Result<Option<LineView>, ParseErrorView> {
    let i = scan(s, a, b, Stop::IndentEnd);
    if i >= b {
        Ok(None)
    } else {
        match items_in(s, i, b) {
            Ok(items) => Ok(Some(LineView { indent: s.subrange(a, i), items })),
            Err(e) => Err(e),
        }
    }
}

/// The lines written in the text from `a` on, none for each blank one; the first flaw in
/// reading order, if any.
pub open spec fn lines_from(s: Seq<char>, a: int) -> Result<Seq<Option<LineView>>, ParseErrorView>
    decreases s.len() - a,
{
    let b = scan(s, a, s.len() as int, Stop::LineEnd);
    proof {
        if a <= s.len() {
            lemma_scan_bounds(s, a, s.len() as int, Stop::LineEnd);
        }
    }
    match line_in(s, a, b) {
        Err(e) => Err(e),
        Ok(line) => if b >= s.len() || a > s.len() {
            Ok(seq![line])
        } else {
            match lines_from(s, b + 1) {
                Ok(rest) => Ok(seq![line] + rest),
                Err(e) => Err(e),
            }
        },
    }
}

/// The lines since the last blank one.
pub open spec fn open_block(lines: Seq<Option<LineView>>) -> Seq<LineView>
    decreases lines.len(),
{
    if lines.len() == 0 {
        Seq::empty()
    } else {
        match lines.last() {
            None => Seq::empty(),
            Some(line) => open_block(lines.drop_last()).push(line),
        }
    }
}

/// The blocks that a blank line has ended, in order.
pub open spec fn closed_blocks(lines: Seq<Option<LineView>>) -> Seq<Seq<LineView>>
    decreases lines.len(),
{
    if lines.len() == 0 {
        Seq::empty()
    } else {
        let before = lines.drop_last();
        if lines.last() is None && open_block(before).len() > 0 {
            closed_blocks(before).push(open_block(before))
        } else {
            closed_blocks(before)
        }
    }
}

/// The blocks of a run of lines: the runs of lines that blank lines part.
pub open spec fn blocks_of(lines: Seq<Option<LineView>>) -> Seq<Seq<LineView>> {
    if open_block(lines).len() > 0 {
        closed_blocks(lines).push(open_block(lines))
    } else {
        closed_blocks(lines)
    }
}

/// The document written in a text: its blocks, each a run of lines.
pub open spec fn document(s: Seq<char>) -> Result<Seq<Seq<LineView>>, ParseErrorView> {
    match lines_from(s, 0) {
        Ok(lines) => Ok(blocks_of(lines)),
        Err(e) => Err(e),
    }
}

/// `done`, then what `rest` yields; or the failure of `rest`.
pub open spec fn then_all<T>(done: Seq<T>, rest: Result<Seq<T>, ParseErrorView>) -> Result<
    Seq<T>,
    ParseErrorView,
> {
    match rest {
        Ok(more) => Ok(done + more),
        Err(e) => Err(e),
    }
}

fn stops_at(kind: Stop, c: char) -> (b: bool)
    ensures
        b == stops(kind, c),
{
    match kind {
        Stop::LineEnd => c == '\n',
        Stop::IndentEnd => !char_is_whitespace(c),
        Stop::KeywordEnd => char_is_whitespace(c) || c == '⟦' || c == '⟧',
        Stop::TextEnd => c == '⟦' || c == '⟧',
    }
}

/// The first place from `i` on, before `hi`, at which the scan stops; `hi` if there is
/// none.
fn scan_to(chars: &Vec<char>, i: usize, hi: usize, kind: Stop) -> (r: usize)
    requires
        i <= hi <= chars@.len(),
    ensures
        r == scan(chars@, i as int, hi as int, kind),
        i <= r <= hi,
{
    let mut j = i;
    while j < hi && !stops_at(kind, chars[j])
        invariant
            i <= j <= hi,
            hi <= chars@.len(),
            scan(chars@, i as int, hi as int, kind) == scan(chars@, j as int, hi as int, kind),
        decreases hi - j,
    {
        j += 1;
    }
    j
}

/// Where the form closes whose items start at `i`; `hi` if it does not close before
/// `hi`.
fn find_close(chars: &Vec<char>, i: usize, hi: usize) -> (r: usize)
    requires
        i <= hi <= chars@.len(),
    ensures
        r == close_of(chars@, i as int, hi as int, 0),
        i <= r <= hi,
{
    let mut j = i;
    let mut depth: usize = 0;
    while j < hi
        invariant
            i <= j <= hi,
            hi <= chars@.len(),
            depth <= j - i,
            close_of(chars@, i as int, hi as int, 0) == close_of(
                chars@,
                j as int,
                hi as int,
                depth as nat,
            ),
        decreases hi - j,
    {
        let c = chars[j];
        if c == '⟧' {
            if depth == 0 {
                return j;
            }
            depth -= 1;
        } else if c == '⟦' {
            depth += 1;
        }
        j += 1;
    }
    hi
}

/// The items written in the characters of `text` from `lo` up to `hi`.
fn parse_items<'a>(text: &'a str, chars: &Vec<char>, lo: usize, hi: usize) -> (r: Result<
    Vec<Item<'a>>,
    ParseError,
>)
    requires
        chars@ == text@,
        lo <= hi <= chars@.len(),
    ensures
        match r {
            Ok(items) => items_in(chars@, lo as int, hi as int) == Ok::<
                Seq<ItemView>,
                ParseErrorView,
            >(items_view(items@)),
            Err(e) => items_in(chars@, lo as int, hi as int) == Err::<
                Seq<ItemView>,
                ParseErrorView,
            >(e@),
        },
    decreases hi - lo,
{
    let ghost s = chars@;
    let mut out: Vec<Item<'a>> = Vec::new();
    let mut pos = lo;
    proof {
        if let Ok(all) = items_in(s, lo as int, hi as int) {
            assert(items_view(out@) + all =~= all);
        }
    }
    while pos < hi
        invariant
            s == chars@,
            chars@ == text@,
            lo <= pos <= hi,
            hi <= chars@.len(),
            items_in(s, lo as int, hi as int) == then_all(
                items_view(out@),
                items_in(s, pos as int, hi as int),
            ),
        decreases hi - pos,
    {
        let ghost done = items_view(out@);
        let ghost old_out = out@;
        let c = chars[pos];
        if c == '⟧' {
            return Err(ParseError { flaw: Flaw::StrayClose, at: pos });
        } else if c == '⟦' {
            let k = scan_to(chars, pos + 1, hi, Stop::KeywordEnd);
            let start = if k < hi && char_is_whitespace(chars[k]) {
                k + 1
            } else {
                k
            };
            let close = find_close(chars, start, hi);
            if close >= hi {
                return Err(ParseError { flaw: Flaw::Unclosed, at: pos });
            }
            let inner = match parse_items(text, chars, start, close) {
                Ok(inner) => inner,
                Err(e) => {
                    return Err(e);
                },
            };
            let item = Item::Sexp(Sexp { keyword: text.substring_char(pos + 1, k), items: inner });
            out.push(item);
            proof {
                assert(out@.drop_last() =~= old_out);
                let rest = items_in(s, close + 1, hi as int);
                if let Ok(more) = rest {
                    assert(done + (seq![item_view(item)] + more) =~= done.push(item_view(item))
                        + more);
                }
            }
            pos = close + 1;
        } else {
            let k = scan_to(chars, pos + 1, hi, Stop::TextEnd);
            let item = Item::Text(text.substring_char(pos, k));
            out.push(item);
            proof {
                assert(out@.drop_last() =~= old_out);
                let rest = items_in(s, k as int, hi as int);
                if let Ok(more) = rest {
                    assert(done + (seq![item_view(item)] + more) =~= done.push(item_view(item))
                        + more);
                }
            }
            pos = k;
        }
    }
    proof {
        assert(items_view(out@) + Seq::<ItemView>::empty() =~= items_view(out@));
    }
    Ok(out)
}

/// The characters of a text.
fn chars_of(text: &str) -> (chars: Vec<char>)
    ensures
        chars@ == text@,
{
    let n = text.unicode_len();
    let mut chars: Vec<char> = Vec::new();
    let mut i: usize = 0;
    while i < n
        invariant
            n == text@.len(),
            i <= n,
            chars@ == text@.subrange(0, i as int),
        decreases n - i,
    {
        chars.push(text.get_char(i));
        assert(chars@ =~= text@.subrange(0, i + 1));
        i += 1;
    }
    assert(text@.subrange(0, n as int) =~= text@);
    chars
}

/// Parses a document: the blocks that blank lines part, each a run of lines, each line
/// its indent and its items. No block is empty.
pub fn parse_song<'a>(text: &'a str) -> (r: Result<Vec<Vec<Line<'a>>>, ParseError>)
    ensures
        match r {
            Ok(blocks) => document(text@) == Ok::<Seq<Seq<LineView>>, ParseErrorView>(
                blocks_view(blocks@),
            ),
            Err(e) => document(text@) == Err::<Seq<Seq<LineView>>, ParseErrorView>(e@),
        },
        r matches Ok(blocks) ==> forall|i: int|
            0 <= i < blocks@.len() ==> (#[trigger] blocks@[i])@.len() > 0,
{
    let chars = chars_of(text);
    let ghost s = chars@;
    let n = chars.len();
    let mut done: Vec<Vec<Line<'a>>> = Vec::new();
    let mut current: Vec<Line<'a>> = Vec::new();
    let ghost mut seen: Seq<Option<LineView>> = Seq::empty();
    let mut a: usize = 0;
    proof {
        if let Ok(all) = lines_from(s, 0) {
            assert(seen + all =~= all);
        }
        assert(blocks_view(done@) =~= closed_blocks(seen));
        assert(block_view(current@) =~= open_block(seen));
    }
    loop
        invariant
            s == chars@,
            chars@ == text@,
            n == chars@.len(),
            a <= n,
            lines_from(s, 0) == then_all(seen, lines_from(s, a as int)),
            blocks_view(done@) == closed_blocks(seen),
            block_view(current@) == open_block(seen),
            forall|i: int| 0 <= i < done@.len() ==> (#[trigger] done@[i])@.len() > 0,
        decreases n - a,
    {
        let b = scan_to(&chars, a, n, Stop::LineEnd);
        let i = scan_to(&chars, a, b, Stop::IndentEnd);
        let ghost line: Option<LineView>;
        let ghost before = seen;
        if i >= b {
            if current.len() > 0 {
                let ghost old_done = done@;
                done.push(current);
                current = Vec::new();
                proof {
                    assert(blocks_view(done@) =~= blocks_view(old_done).push(open_block(before)));
                }
            }
            proof {
                line = None;
                seen = before.push(None);
                assert(seen.drop_last() =~= before);
                assert(block_view(current@) =~= Seq::empty());
            }
        } else {
            let items = match parse_items(text, &chars, i, b) {
                Ok(items) => items,
                Err(e) => {
                    return Err(e);
                },
            };
            let ghost old_current = current@;
            let made = Line { indent: text.substring_char(a, i), items };
            current.push(made);
            proof {
                line = Some(made@);
                seen = before.push(line);
                assert(seen.drop_last() =~= before);
                assert(block_view(current@) =~= block_view(old_current).push(made@));
            }
        }
        proof {
            assert(line_in(s, a as int, b as int) == Ok::<Option<LineView>, ParseErrorView>(line));
            if b < n {
                if let Ok(more) = lines_from(s, b + 1) {
                    assert(before + (seq![line] + more) =~= before.push(line) + more);
                }
            } else {
                assert(before + seq![line] =~= before.push(line));
            }
        }
        if b >= n {
            if current.len() > 0 {
                let ghost old_done = done@;
                done.push(current);
                proof {
                    assert(blocks_view(done@) =~= blocks_view(old_done).push(open_block(seen)));
                }
            }
            return Ok(done);
        }
        a = b + 1;
    }
}

/// Text that reads back as it was written: not empty, and without brackets.
pub open spec fn plain_text(t: Seq<char>) -> bool {
    &&& t.len() > 0
    &&& forall|i: int| 0 <= i < t.len() ==> !stops(Stop::TextEnd, #[trigger] t[i])
}

/// A keyword that reads back as it was written: without white space and brackets.
pub open spec fn plain_keyword(k: Seq<char>) -> bool {
    forall|i: int| 0 <= i < k.len() ==> !stops(Stop::KeywordEnd, #[trigger] k[i])
}

/// An item that reads back as it was written: plain text, or a form with a plain keyword
/// whose items read back.
pub open spec fn item_reads_back(item: ItemView) -> bool
    decreases item,
{
    match item {
        ItemView::Text(t) => plain_text(t),
        ItemView::Sexp(sexp) => plain_keyword(sexp.keyword) && reads_back(sexp.items),
    }
}

/// Items that read back as they were written: each does, and no text follows text.
pub open spec fn reads_back(items: Seq<ItemView>) -> bool
    decreases items,
{
    if items.len() == 0 {
        true
    } else {
        &&& item_reads_back(items[0])
        &&& reads_back(items.drop_first())
        &&& items[0] is Text && items.len() > 1 ==> items[1] is Sexp
    }
}

/// The items written out are the first written out, then the rest.
pub proof fn lemma_written_first(items: Seq<ItemView>)
    requires
        items.len() > 0,
    ensures
        items_written(items) == item_written(items[0]) + items_written(items.drop_first()),
    decreases items.len(),
{
    let rest = items.drop_first();
    if items.len() == 1 {
        assert(items.drop_last() =~= Seq::empty());
        assert(rest =~= Seq::empty());
        assert(items_written(items) =~= item_written(items[0]) + items_written(rest));
    } else {
        let head = items.drop_last();
        lemma_written_first(head);
        assert(rest.drop_last() =~= head.drop_first());
        assert(rest.last() == items.last());
        assert(head[0] == items[0]);
        assert(items_written(items) =~= item_written(items[0]) + items_written(rest));
    }
}

/// A scan passes over characters at which it does not stop.
pub proof fn lemma_scan_skips(s: Seq<char>, i: int, j: int, hi: int, kind: Stop)
    requires
        0 <= i <= j <= hi <= s.len(),
        forall|p: int| i <= p < j ==> !stops(kind, #[trigger] s[p]),
    ensures
        scan(s, i, hi, kind) == scan(s, j, hi, kind),
    decreases j - i,
{
    if i < j {
        lemma_scan_skips(s, i + 1, j, hi, kind);
    }
}

/// The search for a closing bracket passes over characters that are no brackets.
pub proof fn lemma_close_skips_text(s: Seq<char>, i: int, j: int, hi: int, depth: nat)
    requires
        0 <= i <= j <= hi <= s.len(),
        forall|p: int| i <= p < j ==> !stops(Stop::TextEnd, #[trigger] s[p]),
    ensures
        close_of(s, i, hi, depth) == close_of(s, j, hi, depth),
    decreases j - i,
{
    if i < j {
        lemma_close_skips_text(s, i + 1, j, hi, depth);
    }
}

/// A character of a text that is written at `i` is the character written there.
proof fn lemma_written_at(s: Seq<char>, i: int, w: Seq<char>, p: int)
    requires
        0 <= i,
        i + w.len() <= s.len(),
        s.subrange(i, i + w.len()) == w,
        0 <= p < w.len(),
    ensures
        s[i + p] == w[p],
{
    assert(s.subrange(i, i + w.len())[p] == s[i + p]);
}

/// The search for a closing bracket passes over a form as it is written.
proof fn lemma_close_skips_form(sexp: SexpView, s: Seq<char>, i: int, hi: int, depth: nat)
    requires
        plain_keyword(sexp.keyword),
        0 <= i,
        i + sexp_written(sexp).len() <= hi <= s.len(),
        s.subrange(i, i + sexp_written(sexp).len()) == sexp_written(sexp),
        close_of(s, i + 2 + sexp.keyword.len(), hi, depth + 1) == close_of(
            s,
            i + 2 + sexp.keyword.len() + items_written(sexp.items).len(),
            hi,
            depth + 1,
        ),
    ensures
        close_of(s, i, hi, depth) == close_of(s, i + sexp_written(sexp).len(), hi, depth),
{
    let w = sexp_written(sexp);
    let k = sexp.keyword.len() as int;
    let n = items_written(sexp.items).len() as int;
    assert(w.len() == k + n + 3);
    lemma_written_at(s, i, w, 0);
    assert(w[0] == '⟦');
    assert forall|p: int| i + 1 <= p < i + 2 + k implies !stops(Stop::TextEnd, #[trigger] s[p]) by {
        lemma_written_at(s, i, w, p - i);
        if p < i + 1 + k {
            assert(w[p - i] == sexp.keyword[p - i - 1]);
        } else {
            assert(w[p - i] == ' ');
        }
    }
    lemma_close_skips_text(s, i + 1, i + 2 + k, hi, depth + 1);
    lemma_written_at(s, i, w, 2 + k + n);
    assert(w[2 + k + n] == '⟧');
}

/// The search for a closing bracket passes over an item as it is written.
pub proof fn lemma_close_skips_item(item: ItemView, s: Seq<char>, i: int, hi: int, depth: nat)
    requires
        item_reads_back(item),
        0 <= i,
        i + item_written(item).len() <= hi <= s.len(),
        s.subrange(i, i + item_written(item).len()) == item_written(item),
    ensures
        close_of(s, i, hi, depth) == close_of(s, i + item_written(item).len(), hi, depth),
    decreases item, 0nat,
{
    match item {
        ItemView::Text(t) => {
            assert forall|p: int| i <= p < i + t.len() implies !stops(
                Stop::TextEnd,
                #[trigger] s[p],
            ) by {
                lemma_written_at(s, i, t, p - i);
            }
            lemma_close_skips_text(s, i, i + t.len(), hi, depth);
        },
        ItemView::Sexp(sexp) => {
            let w = sexp_written(sexp);
            let k = sexp.keyword.len() as int;
            let inner = items_written(sexp.items);
            let n = inner.len() as int;
            assert(w.len() == k + n + 3);
            assert(s.subrange(i + 2 + k, i + 2 + k + n) =~= inner) by {
                assert forall|p: int| 0 <= p < n implies s.subrange(i + 2 + k, i + 2 + k + n)[p]
                    == inner[p] by {
                    lemma_written_at(s, i, w, 2 + k + p);
                }
            }
            lemma_close_skips(sexp.items, s, i + 2 + k, hi, depth + 1);
            lemma_close_skips_form(sexp, s, i, hi, depth);
        },
    }
}

/// The search for a closing bracket passes over items as they are written.
pub proof fn lemma_close_skips(items: Seq<ItemView>, s: Seq<char>, i: int, hi: int, depth: nat)
    requires
        reads_back(items),
        0 <= i,
        i + items_written(items).len() <= hi <= s.len(),
        s.subrange(i, i + items_written(items).len()) == items_written(items),
    ensures
        close_of(s, i, hi, depth) == close_of(s, i + items_written(items).len(), hi, depth),
    decreases items, 1nat,
{
    if items.len() > 0 {
        lemma_written_first(items);
        let first = item_written(items[0]);
        let rest = items_written(items.drop_first());
        let w = items_written(items);
        let m = first.len() as int;
        assert(s.subrange(i, i + m) =~= first) by {
            assert forall|p: int| 0 <= p < m implies s.subrange(i, i + m)[p] == first[p] by {
                assert(s.subrange(i, i + w.len())[p] == w[p]);
            }
        }
        assert(s.subrange(i + m, i + w.len()) =~= rest) by {
            assert forall|p: int| 0 <= p < rest.len() implies s.subrange(i + m, i + w.len())[p]
                == rest[p] by {
                assert(s.subrange(i, i + w.len())[p + m] == w[p + m]);
            }
        }
        lemma_close_skips_item(items[0], s, i, hi, depth);
        lemma_close_skips(items.drop_first(), s, i + m, hi, depth);
    }
}

/// Where text is written at `lo`, and a bracket or the bound follows it, the run of text
/// that starts at `lo` is that text.
proof fn lemma_text_ends(t: Seq<char>, s: Seq<char>, lo: int, hi: int)
    requires
        plain_text(t),
        0 <= lo,
        lo + t.len() <= hi <= s.len(),
        s.subrange(lo, lo + t.len()) == t,
        lo + t.len() < hi ==> stops(Stop::TextEnd, s[lo + t.len()]),
    ensures
        !stops(Stop::TextEnd, s[lo]),
        scan(s, lo + 1, hi, Stop::TextEnd) == lo + t.len(),
{
    let m = t.len() as int;
    assert forall|p: int| lo <= p < lo + m implies !stops(Stop::TextEnd, #[trigger] s[p]) by {
        lemma_written_at(s, lo, t, p - lo);
    }
    lemma_scan_skips(s, lo + 1, lo + m, hi, Stop::TextEnd);
}

/// Where a form is written at `lo`, its keyword ends where it was written to end, its
/// items start after one space, and it closes where it was written to close.
proof fn lemma_form_ends(sexp: SexpView, s: Seq<char>, lo: int, hi: int)
    requires
        white_space(' '),
        plain_keyword(sexp.keyword),
        reads_back(sexp.items),
        0 <= lo,
        lo + sexp_written(sexp).len() <= hi <= s.len(),
        s.subrange(lo, lo + sexp_written(sexp).len()) == sexp_written(sexp),
    ensures
        s[lo] == '⟦',
        sexp_written(sexp).len() == sexp.keyword.len() + items_written(sexp.items).len() + 3,
        scan(s, lo + 1, hi, Stop::KeywordEnd) == lo + 1 + sexp.keyword.len(),
        s.subrange(lo + 1, lo + 1 + sexp.keyword.len()) == sexp.keyword,
        items_start(s, lo, hi) == lo + 2 + sexp.keyword.len(),
        s.subrange(
            lo + 2 + sexp.keyword.len(),
            lo + 2 + sexp.keyword.len() + items_written(sexp.items).len(),
        ) == items_written(sexp.items),
        close_of(s, lo + 2 + sexp.keyword.len(), hi, 0) == lo + 2 + sexp.keyword.len()
            + items_written(sexp.items).len(),
{
    let w = sexp_written(sexp);
    let k = sexp.keyword.len() as int;
    let inner = items_written(sexp.items);
    let n = inner.len() as int;
    assert(w.len() == k + n + 3);
    lemma_written_at(s, lo, w, 0);
    assert(w[0] == '⟦');
    assert forall|p: int| lo + 1 <= p < lo + 1 + k implies !stops(
        Stop::KeywordEnd,
        #[trigger] s[p],
    ) by {
        lemma_written_at(s, lo, w, p - lo);
        assert(w[p - lo] == sexp.keyword[p - lo - 1]);
    }
    lemma_scan_skips(s, lo + 1, lo + 1 + k, hi, Stop::KeywordEnd);
    lemma_written_at(s, lo, w, 1 + k);
    assert(w[1 + k] == ' ');
    assert(s.subrange(lo + 1, lo + 1 + k) =~= sexp.keyword) by {
        assert forall|p: int| 0 <= p < k implies s.subrange(lo + 1, lo + 1 + k)[p]
            == sexp.keyword[p] by {
            lemma_written_at(s, lo, w, 1 + p);
        }
    }
    assert(s.subrange(lo + 2 + k, lo + 2 + k + n) =~= inner) by {
        assert forall|p: int| 0 <= p < n implies s.subrange(lo + 2 + k, lo + 2 + k + n)[p]
            == inner[p] by {
            lemma_written_at(s, lo, w, 2 + k + p);
        }
    }
    lemma_close_skips(sexp.items, s, lo + 2 + k, hi, 0);
    lemma_written_at(s, lo, w, 2 + k + n);
    assert(w[2 + k + n] == '⟧');
}

/// What is written reads back: the items written in the characters from `lo` up to `hi`
/// are `items`, where those characters are `items` written out, a space counts as white
/// space, and `items` read back: their text is not empty and holds no bracket, no text
/// follows text, and their keywords hold neither white space nor a bracket.
pub proof fn law_written_items_read_back(items: Seq<ItemView>, s: Seq<char>, lo: int, hi: int)
    requires
        white_space(' '),
        reads_back(items),
        0 <= lo <= hi <= s.len(),
        s.subrange(lo, hi) == items_written(items),
    ensures
        items_in(s, lo, hi) == Ok::<Seq<ItemView>, ParseErrorView>(items),
    decreases items,
{
    let w = items_written(items);
    assert(w.len() == hi - lo);
    if items.len() == 0 {
        assert(items =~= Seq::empty());
    } else {
        lemma_written_first(items);
        let rest = items.drop_first();
        let first = item_written(items[0]);
        let rest_w = items_written(rest);
        let m = first.len() as int;
        assert(item_reads_back(items[0]));
        assert(reads_back(rest));
        assert(s.subrange(lo, lo + m) =~= first) by {
            assert forall|p: int| 0 <= p < m implies s.subrange(lo, lo + m)[p] == first[p] by {
                assert(s.subrange(lo, hi)[p] == w[p]);
            }
        }
        assert(s.subrange(lo + m, hi) =~= rest_w) by {
            assert forall|p: int| 0 <= p < rest_w.len() implies s.subrange(lo + m, hi)[p]
                == rest_w[p] by {
                assert(s.subrange(lo, hi)[p + m] == w[p + m]);
            }
        }
        law_written_items_read_back(rest, s, lo + m, hi);
        assert(seq![items[0]] + rest =~= items);
        match items[0] {
            ItemView::Text(t) => {
                assert(plain_text(t));
                if rest.len() > 0 {
                    assert(rest[0] == items[1]);
                    lemma_written_first(rest);
                    assert(item_written(rest[0])[0] == '⟦');
                    assert(s.subrange(lo + m, hi)[0] == rest_w[0]);
                }
                lemma_text_ends(t, s, lo, hi);
            },
            ItemView::Sexp(sexp) => {
                assert(plain_keyword(sexp.keyword));
                assert(reads_back(sexp.items));
                assert(first == sexp_written(sexp));
                lemma_form_ends(sexp, s, lo, hi);
                let start = lo + 2 + sexp.keyword.len();
                let close = start + items_written(sexp.items).len();
                law_written_items_read_back(sexp.items, s, start, close);
            },
        }
    }
}

/// Whether a scan of the given kind stops at no character of `s`.
fn none_stops(s: &str, kind: Stop) -> (b: bool)
    ensures
        b == forall|i: int| 0 <= i < s@.len() ==> !stops(kind, #[trigger] s@[i]),
{
    let n = s.unicode_len();
    let mut i: usize = 0;
    while i < n
        invariant
            n == s@.len(),
            i <= n,
            forall|j: int| 0 <= j < i ==> !stops(kind, #[trigger] s@[j]),
        decreases n - i,
    {
        if stops_at(kind, s.get_char(i)) {
            return false;
        }
        i += 1;
    }
    true
}

/// Whether items read back as they are written: their text is not empty and holds no
/// bracket, no text follows text, and their keywords hold neither white space nor a
/// bracket.
pub fn items_read_back(items: &Vec<Item>) -> (b: bool)
    ensures
        b == reads_back(items_view(items@)),
    decreases items,
{
    let ghost all = items_view(items@);
    let n = items.len();
    let mut i: usize = 0;
    proof {
        lemma_items_view(items@);
        assert(all.subrange(0, n as int) =~= all);
    }
    while i < n
        invariant
            n == items@.len(),
            i <= n,
            all == items_view(items@),
            all.len() == n,
            forall|k: int| 0 <= k < n ==> (#[trigger] all[k]) == item_view(items@[k]),
            reads_back(all) == reads_back(all.subrange(i as int, n as int)),
        decreases n - i,
    {
        let ghost rest = all.subrange(i as int, n as int);
        proof {
            assert(rest[0] == all[i as int]);
            assert(rest.drop_first() =~= all.subrange(i + 1, n as int));
            if i + 1 < n {
                assert(rest[1] == all[i + 1]);
            }
            assert(all[i as int] == item_view(items@[i as int]));
        }
        let fine = match &items[i] {
            Item::Text(t) => {
                let alone = if i + 1 < n {
                    match &items[i + 1] {
                        Item::Text(_) => false,
                        Item::Sexp(_) => true,
                    }
                } else {
                    true
                };
                assert(item_reads_back(all[i as int]) == plain_text(t@));
                t.unicode_len() > 0 && none_stops(t, Stop::TextEnd) && alone
            },
            Item::Sexp(sexp) => {
                assert(item_reads_back(all[i as int]) == (plain_keyword(sexp.keyword@)
                    && reads_back(items_view(sexp.items@))));
                none_stops(sexp.keyword, Stop::KeywordEnd) && items_read_back(&sexp.items)
            },
        };
        if !fine {
            return false;
        }
        i += 1;
    }
    true
}

/// Writes items out, where what is written reads back as the items; gives nothing where
/// it would not. The items written on one line between other text parse as themselves.
pub fn write_items(items: &Vec<Item>) -> (r: Option<String>)
    ensures
        match r {
            Some(text) => {
                &&& reads_back(items_view(items@))
                &&& text@ == items_written(items_view(items@))
                &&& items_in(text@, 0, text@.len() as int) == Ok::<Seq<ItemView>, ParseErrorView>(
                    items_view(items@),
                )
            },
            None => !reads_back(items_view(items@)),
        },
{
    if !items_read_back(items) {
        return None;
    }
    white_space_known();
    let text = items_to_text(items);
    proof {
        assert(text@.subrange(0, text@.len() as int) =~= text@);
        law_written_items_read_back(items_view(items@), text@, 0, text@.len() as int);
    }
    Some(text)
}

} // verus!
