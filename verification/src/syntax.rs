//! The syntax tree that the parser hands to the translator.

use vstd::prelude::*;
use vstd::string::*;
use crate::error::{Error, ErrorKind, ErrorView};

verus! {

/// One physical line: its raw leading white space and what follows it.
#[derive(Debug, PartialEq, Eq)]
pub struct Line<'a> {
    pub indent: &'a str,
    pub items: Vec<Item<'a>>,
}

/// A bracketed form: a keyword and the items nested in it.
#[derive(Debug, PartialEq, Eq)]
pub struct Sexp<'a> {
    pub keyword: &'a str,
    pub items: Vec<Item<'a>>,
}

/// A run of text or a nested form.
#[derive(Debug, PartialEq, Eq)]
pub enum Item<'a> {
    Text(&'a str),
    Sexp(Sexp<'a>),
}

/// The mathematical value of an [`Item`].
pub enum ItemView {
    Text(Seq<char>),
    Sexp(SexpView),
}

/// The mathematical value of a [`Sexp`].
pub struct SexpView {
    pub keyword: Seq<char>,
    pub items: Seq<ItemView>,
}

/// The mathematical value of a [`Line`].
pub struct LineView {
    pub indent: Seq<char>,
    pub items: Seq<ItemView>,
}

/// The value of an item.
pub open spec fn item_view(item: Item) -> ItemView
    decreases item,
{
    match item {
        Item::Text(s) => ItemView::Text(s@),
        Item::Sexp(sexp) => ItemView::Sexp(
            SexpView { keyword: sexp.keyword@, items: items_view(sexp.items@) },
        ),
    }
}

/// The values of a run of items, one for one.
pub open spec fn items_view(items: Seq<Item>) -> Seq<ItemView>
    decreases items,
{
    if items.len() == 0 {
        Seq::empty()
    } else {
        items_view(items.drop_last()).push(item_view(items.last()))
    }
}

/// The values of a run of items are the values of the items, one for one.
pub proof fn lemma_items_view(items: Seq<Item>)
    ensures
        items_view(items).len() == items.len(),
        forall|i: int|
            0 <= i < items.len() ==> (#[trigger] items_view(items)[i]) == item_view(items[i]),
    decreases items.len(),
{
    if items.len() > 0 {
        lemma_items_view(items.drop_last());
    }
}

impl<'a> View for Item<'a> {
    type V = ItemView;

    open spec fn view(&self) -> ItemView {
        item_view(*self)
    }
}

impl<'a> View for Sexp<'a> {
    type V = SexpView;

    open spec fn view(&self) -> SexpView {
        SexpView { keyword: self.keyword@, items: items_view(self.items@) }
    }
}

impl<'a> View for Line<'a> {
    type V = LineView;

    open spec fn view(&self) -> LineView {
        LineView { indent: self.indent@, items: items_view(self.items@) }
    }
}

/// The values of a run of lines.
pub open spec fn block_view(lines: Seq<Line>) -> Seq<LineView> {
    lines.map_values(|l: Line| l@)
}

/// The values of a run of blocks.
pub open spec fn blocks_view(blocks: Seq<Vec<Line>>) -> Seq<Seq<LineView>> {
    blocks.map_values(|b: Vec<Line>| block_view(b@))
}

/// The single text child of a form with this keyword and these children; a failure
/// for a form with no child or several, or with one that is a form.
pub open spec fn string_item_of(keyword: Seq<char>, items: Seq<ItemView>) -> Result<
    Seq<char>,
    ErrorView,
> {
    if items.len() != 1 {
        Err(ErrorView { kind: ErrorKind::WrongArity, subject: keyword })
    } else {
        match items[0] {
            ItemView::Text(s) => Ok(s),
            ItemView::Sexp(_) => Err(ErrorView { kind: ErrorKind::ExpectedText, subject: keyword }),
        }
    }
}

/// How a form is written out: `⟦keyword items⟧`.
pub open spec fn sexp_written(sexp: SexpView) -> Seq<char>
    decreases sexp,
{
    seq!['⟦'] + sexp.keyword + seq![' '] + items_written(sexp.items) + seq!['⟧']
}

/// How an item is written out: text as it is, a form as [`sexp_written`] has it.
pub open spec fn item_written(item: ItemView) -> Seq<char>
    decreases item,
{
    match item {
        ItemView::Text(s) => s,
        ItemView::Sexp(sexp) => sexp_written(sexp),
    }
}

/// The items written out one after another.
pub open spec fn items_written(items: Seq<ItemView>) -> Seq<char>
    decreases items,
{
    if items.len() == 0 {
        Seq::empty()
    } else {
        items_written(items.drop_last()) + item_written(items.last())
    }
}

impl<'a> Sexp<'a> {
    /// The single text child of this form.
    pub fn string_item(&self) -> (r: Result<&'a str, Error>)
        ensures
            match r {
                Ok(s) => string_item_of(self@.keyword, self@.items) == Ok::<Seq<char>, ErrorView>(s@),
                Err(e) => string_item_of(self@.keyword, self@.items) == Err::<Seq<char>, ErrorView>(
                    e@,
                ),
            },
    {
        proof {
            lemma_items_view(self.items@);
        }
        if self.items.len() == 1 {
            match &self.items[0] {
                Item::Text(s) => Ok(*s),
                Item::Sexp(_) => Err(Error::new(ErrorKind::ExpectedText, self.keyword)),
            }
        } else {
            Err(Error::new(ErrorKind::WrongArity, self.keyword))
        }
    }

    /// Whether this form has any children.
    pub fn has_args(&self) -> (b: bool)
        ensures
            b == (self@.items.len() > 0),
    {
        proof {
            lemma_items_view(self.items@);
        }
        self.items.len() > 0
    }

    /// This form written out as `⟦keyword items⟧`.
    pub fn to_text(&self) -> (s: String)
        ensures
            s@ == sexp_written(self@),
        decreases self,
    {
        let mut s = String::from_str("⟦");
        s.append(self.keyword);
        s.append(" ");
        let inside = items_to_text(&self.items);
        s.append(inside.as_str());
        s.append("⟧");
        proof {
            reveal_strlit("⟦");
            reveal_strlit(" ");
            reveal_strlit("⟧");
            assert(s@ =~= sexp_written(self@));
        }
        s
    }
}

/// The items written out one after another.
pub fn items_to_text(items: &Vec<Item>) -> (s: String)
    ensures
        s@ == items_written(items_view(items@)),
    decreases items,
{
    let mut s = String::new();
    let n = items.len();
    let mut i: usize = 0;
    proof {
        assert(s@ =~= items_written(items_view(items@.subrange(0, 0))));
    }
    while i < n
        invariant
            n == items@.len(),
            i <= n,
            s@ == items_written(items_view(items@.subrange(0, i as int))),
        decreases n - i,
    {
        let ghost before = s@;
        match &items[i] {
            Item::Text(t) => {
                s.append(t);
            },
            Item::Sexp(inner) => {
                let w = inner.to_text();
                s.append(w.as_str());
            },
        }
        proof {
            let upto = items@.subrange(0, i + 1);
            assert(upto.drop_last() =~= items@.subrange(0, i as int));
            assert(upto.last() == items@[i as int]);
            assert(items_view(upto).drop_last() =~= items_view(upto.drop_last()));
            assert(s@ == before + item_written(item_view(items@[i as int])));
        }
        i += 1;
    }
    proof {
        assert(items@.subrange(0, n as int) =~= items@);
    }
    s
}

} // verus!
