//! Page layout: where each label and line of a song goes, and how much room the song
//! takes, once the size of every piece of text has been measured.
//!
//! Lengths are in the units of the measurements: 1024 to the point.

use vstd::prelude::*;
use crate::indent::line_indents;
use crate::model::{FormattedText, Verse, VerseView, lines_view, verses_view};

verus! {

/// The width of one step of indent: 24 points.
pub const INDENT: u64 = 24576;

/// The room between two columns: 18 points.
pub const GUTTER: u64 = 18432;

/// A width and a height.
#[derive(Clone, Copy, Debug, PartialEq, Eq, Structural)]
pub struct Size {
    pub width: u64,
    pub height: u64,
}

/// The mathematical value of a [`Size`].
pub struct SizeView {
    pub width: nat,
    pub height: nat,
}

impl View for Size {
    type V = SizeView;

    open spec fn view(&self) -> SizeView {
        SizeView { width: self.width as nat, height: self.height as nat }
    }
}

impl Size {
    /// The size with the given width and height.
    pub fn from(pair: (u64, u64)) -> (s: Size)
        ensures
            s.width == pair.0,
            s.height == pair.1,
    {
        Size { width: pair.0, height: pair.1 }
    }

    pub fn width(&self) -> (w: u64)
        ensures
            w == self.width,
    {
        self.width
    }

    pub fn height(&self) -> (h: u64)
        ensures
            h == self.height,
    {
        self.height
    }
}

/// A place on the page, counted right and down from where the verses start.
#[derive(Clone, Copy, Debug, PartialEq, Eq, Structural)]
pub struct Point {
    pub x: u64,
    pub y: u64,
}

/// The mathematical value of a [`Point`].
pub struct PointView {
    pub x: nat,
    pub y: nat,
}

impl View for Point {
    type V = PointView;

    open spec fn view(&self) -> PointView {
        PointView { x: self.x as nat, y: self.y as nat }
    }
}

/// The values of a sequence of sizes.
pub open spec fn sizes_view(sizes: Seq<Size>) -> Seq<SizeView> {
    sizes.map_values(|s: Size| s@)
}

/// The values of a sequence of points.
pub open spec fn points_view(points: Seq<Point>) -> Seq<PointView> {
    points.map_values(|p: Point| p@)
}

/// The greatest of the samples seen so far.
#[derive(Clone, Copy, Debug)]
pub struct Maximum(pub u64);

impl Maximum {
    pub fn new(init: u64) -> (m: Maximum)
        ensures
            m.0 == init,
    {
        Maximum(init)
    }

    /// Takes note of a sample.
    pub fn see(&mut self, sample: u64)
        ensures
            final(self).0 == larger(old(self).0 as nat, sample as nat),
    {
        if sample > self.0 {
            self.0 = sample;
        }
    }

    pub fn get(&self) -> (v: u64)
        ensures
            v == self.0,
    {
        self.0
    }
}

impl Default for Maximum {
    fn default() -> (m: Maximum)
        ensures
            m.0 == 0,
    {
        Maximum(0)
    }
}

/// Why a layout could not be computed.
#[derive(Clone, Copy, Debug, PartialEq, Eq, Structural)]
pub enum LayoutError {
    /// The measurements do not match the song: a different number of verses, or of lines
    /// in a verse.
    Mismatch,
    /// Some length of the layout does not fit in 64 bits.
    Overflow,
}

/// The larger of two numbers.
pub open spec fn larger(a: nat, b: nat) -> nat {
    if a >= b {
        a
    } else {
        b
    }
}

/// The width of an indent of the given number of steps.
pub open spec fn indent_width(steps: nat) -> nat {
    steps * (INDENT as nat)
}

/// The heights of the lines, added up.
pub open spec fn heights(sizes: Seq<SizeView>) -> nat
    decreases sizes.len(),
{
    if sizes.len() == 0 {
        0
    } else {
        heights(sizes.drop_last()) + sizes.last().height
    }
}

/// How far the widest line reaches: the greatest sum of a line's indent, in steps of
/// [`INDENT`], and its width.
pub open spec fn reach(indents: Seq<nat>, sizes: Seq<SizeView>) -> nat
    decreases sizes.len(),
{
    if sizes.len() == 0 {
        0
    } else {
        larger(
            reach(indents.drop_last(), sizes.drop_last()),
            indent_width(indents.last()) + sizes.last().width,
        )
    }
}

/// The room that a stack of lines takes: as wide as its widest line reaches, as high as
/// all its lines together.
pub open spec fn lines_size(indents: Seq<nat>, sizes: Seq<SizeView>) -> SizeView {
    SizeView { width: reach(indents, sizes), height: heights(sizes) }
}

/// Where the lines of a stack that starts at `at` go: each to the right by its indent, and
/// below the lines before it.
pub open spec fn lines_at(indents: Seq<nat>, sizes: Seq<SizeView>, at: PointView) -> Seq<
    PointView,
> {
    Seq::new(
        sizes.len(),
        |j: int|
            PointView {
                x: at.x + indent_width(indents[j]),
                y: at.y + heights(sizes.subrange(0, j)),
            },
    )
}

/// A box of the given size at the given place lies within the range of 64 bits.
pub open spec fn in_range(at: PointView, size: SizeView) -> bool {
    at.x + size.width <= u64::MAX && at.y + size.height <= u64::MAX
}

/// The heights of some of the lines are no more than those of all.
pub proof fn lemma_heights_grow(sizes: Seq<SizeView>, k: int)
    requires
        0 <= k <= sizes.len(),
    ensures
        heights(sizes.subrange(0, k)) <= heights(sizes),
    decreases sizes.len() - k,
{
    if k < sizes.len() {
        assert(sizes.subrange(0, k + 1).drop_last() =~= sizes.subrange(0, k));
        lemma_heights_grow(sizes, k + 1);
    } else {
        assert(sizes.subrange(0, k) =~= sizes);
    }
}

/// The reach of some of the lines is no more than that of all.
pub proof fn lemma_reach_grows(indents: Seq<nat>, sizes: Seq<SizeView>, k: int)
    requires
        indents.len() == sizes.len(),
        0 <= k <= sizes.len(),
    ensures
        reach(indents.subrange(0, k), sizes.subrange(0, k)) <= reach(indents, sizes),
    decreases sizes.len() - k,
{
    if k < sizes.len() {
        assert(sizes.subrange(0, k + 1).drop_last() =~= sizes.subrange(0, k));
        assert(indents.subrange(0, k + 1).drop_last() =~= indents.subrange(0, k));
        lemma_reach_grows(indents, sizes, k + 1);
    } else {
        assert(sizes.subrange(0, k) =~= sizes);
        assert(indents.subrange(0, k) =~= indents);
    }
}

/// Lays out a stack of lines that starts at `at`, given the measured size of each line:
/// where each line goes, and the room that the stack takes.
pub fn layout_lines(lines: &Vec<FormattedText>, sizes: &Vec<Size>, at: Point) -> (r: Result<
    (Vec<Point>, Size),
    LayoutError,
>)
    ensures
        match r {
            Ok((points, size)) => {
                &&& sizes@.len() == lines@.len()
                &&& in_range(at@, lines_size(line_indents(lines_view(lines@)), sizes_view(sizes@)))
                &&& points_view(points@) == lines_at(
                    line_indents(lines_view(lines@)),
                    sizes_view(sizes@),
                    at@,
                )
                &&& size@ == lines_size(line_indents(lines_view(lines@)), sizes_view(sizes@))
            },
            Err(LayoutError::Mismatch) => sizes@.len() != lines@.len(),
            Err(LayoutError::Overflow) => {
                &&& sizes@.len() == lines@.len()
                &&& !in_range(at@, lines_size(line_indents(lines_view(lines@)), sizes_view(sizes@)))
            },
        },
{
    if sizes.len() != lines.len() {
        return Err(LayoutError::Mismatch);
    }
    let ghost indents = line_indents(lines_view(lines@));
    let ghost all = sizes_view(sizes@);
    let n = lines.len();
    let mut points: Vec<Point> = Vec::new();
    let mut widest = Maximum::new(0);
    let mut total: u64 = 0;
    let mut y: u64 = at.y;
    let mut j: usize = 0;
    while j < n
        invariant
            n == lines@.len(),
            n == sizes@.len(),
            j <= n,
            indents == line_indents(lines_view(lines@)),
            all == sizes_view(sizes@),
            widest.0 == reach(indents.subrange(0, j as int), all.subrange(0, j as int)),
            total == heights(all.subrange(0, j as int)),
            y == at.y + total,
            points@.len() == j,
            forall|k: int| 0 <= k < j ==> (#[trigger] points@[k])@ == lines_at(indents, all, at@)[k],
        decreases n - j,
    {
        proof {
            assert(all.subrange(0, j + 1).drop_last() =~= all.subrange(0, j as int));
            assert(indents.subrange(0, j + 1).drop_last() =~= indents.subrange(0, j as int));
            assert(all.subrange(0, j + 1).last() == sizes@[j as int]@);
            assert(indents.subrange(0, j + 1).last() == lines@[j as int].indent as nat);
            lemma_reach_grows(indents, all, j + 1);
            lemma_heights_grow(all, j + 1);
        }
        let steps = lines[j].indent as u64;
        let offset = match steps.checked_mul(INDENT) {
            Some(v) => v,
            None => {
                return Err(LayoutError::Overflow);
            },
        };
        let x = match at.x.checked_add(offset) {
            Some(v) => v,
            None => {
                return Err(LayoutError::Overflow);
            },
        };
        let right = match offset.checked_add(sizes[j].width) {
            Some(v) => v,
            None => {
                return Err(LayoutError::Overflow);
            },
        };
        points.push(Point { x, y });
        widest.see(right);
        y = match y.checked_add(sizes[j].height) {
            Some(v) => v,
            None => {
                return Err(LayoutError::Overflow);
            },
        };
        total = total + sizes[j].height;
        j += 1;
    }
    proof {
        assert(all.subrange(0, n as int) =~= all);
        assert(indents.subrange(0, n as int) =~= indents);
    }
    if at.x.checked_add(widest.get()).is_none() {
        return Err(LayoutError::Overflow);
    }
    proof {
        assert(points_view(points@) =~= lines_at(indents, all, at@));
    }
    Ok((points, Size { width: widest.get(), height: total }))
}

/// The measured sizes of the pieces of text of one verse: its label, and each of its
/// lines. A verse without a label has its `label` passed over; a verse that owns no
/// lines has no `lines`.
#[derive(Debug, PartialEq, Eq)]
pub struct VerseSizes {
    pub label: Size,
    pub lines: Vec<Size>,
}

/// The mathematical value of a [`VerseSizes`].
pub struct VerseSizesView {
    pub label: SizeView,
    pub lines: Seq<SizeView>,
}

impl View for VerseSizes {
    type V = VerseSizesView;

    open spec fn view(&self) -> VerseSizesView {
        VerseSizesView { label: self.label@, lines: sizes_view(self.lines@) }
    }
}

/// The values of a sequence of verse measurements.
pub open spec fn measures_view(measures: Seq<VerseSizes>) -> Seq<VerseSizesView> {
    measures.map_values(|m: VerseSizes| m@)
}

/// Where the pieces of one verse go, and the room that the verse takes.
#[derive(Debug, PartialEq, Eq)]
pub struct VersePlan {
    /// Where the label goes, for a verse that has one; where the verse starts, for one
    /// that has none.
    pub label_at: Point,
    /// Where each line goes.
    pub lines_at: Vec<Point>,
    /// The room that the verse takes.
    pub size: Size,
}

/// The mathematical value of a [`VersePlan`].
pub struct VersePlanView {
    pub label_at: PointView,
    pub lines_at: Seq<PointView>,
    pub size: SizeView,
}

impl View for VersePlan {
    type V = VersePlanView;

    open spec fn view(&self) -> VersePlanView {
        VersePlanView {
            label_at: self.label_at@,
            lines_at: points_view(self.lines_at@),
            size: self.size@,
        }
    }
}

/// The measurements have a size for each line of the verse, and none for a verse that
/// owns no lines.
pub open spec fn measure_matches(verse: VerseView, m: VerseSizesView) -> bool {
    match verse.lines() {
        Some(lines) => m.lines.len() == lines.len(),
        None => m.lines.len() == 0,
    }
}

/// The room that a verse takes.
///
/// A normal verse takes the room of its lines. The chorus has its label above its lines:
/// it is as wide as the wider of the two, and as high as both. A refrain has its label to
/// the left of its lines: it is as wide as both, and as high as the lines. A reference
/// or a divider takes the room of its label.
pub open spec fn verse_size(verse: VerseView, m: VerseSizesView) -> SizeView {
    match verse {
        VerseView::Normal(lines) => lines_size(line_indents(lines), m.lines),
        VerseView::ChorusDef(_, lines) => {
            let body = lines_size(line_indents(lines), m.lines);
            SizeView {
                width: larger(m.label.width, body.width),
                height: m.label.height + body.height,
            }
        },
        VerseView::RefrainDef(_, lines) => {
            let body = lines_size(line_indents(lines), m.lines);
            SizeView { width: m.label.width + body.width, height: body.height }
        },
        VerseView::ChorusRef(_) => m.label,
        VerseView::SectionBreak(_) => m.label,
    }
}

/// Where the lines of a verse that starts at `at` start: below the label of the chorus,
/// to the right of the label of a refrain.
pub open spec fn body_at(verse: VerseView, m: VerseSizesView, at: PointView) -> PointView {
    match verse {
        VerseView::ChorusDef(_, _) => PointView { x: at.x, y: at.y + m.label.height },
        VerseView::RefrainDef(_, _) => PointView { x: at.x + m.label.width, y: at.y },
        _ => at,
    }
}

/// Where the pieces of a verse that starts at `at` go, and the room that the verse takes.
pub open spec fn verse_plan(verse: VerseView, m: VerseSizesView, at: PointView) -> VersePlanView {
    VersePlanView {
        label_at: at,
        lines_at: match verse.lines() {
            Some(lines) => lines_at(line_indents(lines), m.lines, body_at(verse, m, at)),
            None => Seq::empty(),
        },
        size: verse_size(verse, m),
    }
}

/// Lays out one verse that starts at `at`, given the measured sizes of its pieces.
pub fn layout_verse(verse: &Verse, m: &VerseSizes, at: Point) -> (r: Result<
    VersePlan,
    LayoutError,
>)
    ensures
        match r {
            Ok(plan) => {
                &&& measure_matches(verse@, m@)
                &&& in_range(at@, verse_size(verse@, m@))
                &&& plan@ == verse_plan(verse@, m@, at@)
            },
            Err(LayoutError::Mismatch) => !measure_matches(verse@, m@),
            Err(LayoutError::Overflow) => {
                &&& measure_matches(verse@, m@)
                &&& !in_range(at@, verse_size(verse@, m@))
            },
        },
{
    match verse {
        Verse::Normal(lines) => {
            match layout_lines(lines, &m.lines, at) {
                Ok((lines_at, size)) => Ok(VersePlan { label_at: at, lines_at, size }),
                Err(e) => Err(e),
            }
        },
        Verse::ChorusDef(_, lines) => {
            if m.lines.len() != lines.len() {
                return Err(LayoutError::Mismatch);
            }
            let below = match at.y.checked_add(m.label.height) {
                Some(v) => v,
                None => {
                    return Err(LayoutError::Overflow);
                },
            };
            if at.x.checked_add(m.label.width).is_none() {
                return Err(LayoutError::Overflow);
            }
            match layout_lines(lines, &m.lines, Point { x: at.x, y: below }) {
                Ok((lines_at, body)) => {
                    let width = if m.label.width >= body.width {
                        m.label.width
                    } else {
                        body.width
                    };
                    let size = Size { width, height: m.label.height + body.height };
                    Ok(VersePlan { label_at: at, lines_at, size })
                },
                Err(e) => Err(e),
            }
        },
        Verse::RefrainDef(_, lines) => {
            if m.lines.len() != lines.len() {
                return Err(LayoutError::Mismatch);
            }
            let beside = match at.x.checked_add(m.label.width) {
                Some(v) => v,
                None => {
                    return Err(LayoutError::Overflow);
                },
            };
            match layout_lines(lines, &m.lines, Point { x: beside, y: at.y }) {
                Ok((lines_at, body)) => {
                    let size = Size { width: m.label.width + body.width, height: body.height };
                    Ok(VersePlan { label_at: at, lines_at, size })
                },
                Err(e) => Err(e),
            }
        },
        Verse::ChorusRef(_) => layout_marker(m, at),
        Verse::SectionBreak(_) => layout_marker(m, at),
    }
}

/// Lays out a reference or a divider that starts at `at`: its label alone.
fn layout_marker(m: &VerseSizes, at: Point) -> (r: Result<VersePlan, LayoutError>)
    ensures
        match r {
            Ok(plan) => {
                &&& m@.lines.len() == 0
                &&& in_range(at@, m@.label)
                &&& plan@ == (VersePlanView {
                    label_at: at@,
                    lines_at: Seq::empty(),
                    size: m@.label,
                })
            },
            Err(LayoutError::Mismatch) => m@.lines.len() != 0,
            Err(LayoutError::Overflow) => m@.lines.len() == 0 && !in_range(at@, m@.label),
        },
{
    if m.lines.len() != 0 {
        return Err(LayoutError::Mismatch);
    }
    if at.x.checked_add(m.label.width).is_none() || at.y.checked_add(m.label.height).is_none() {
        return Err(LayoutError::Overflow);
    }
    let plan = VersePlan { label_at: at, lines_at: Vec::new(), size: m.label };
    assert(plan@.lines_at =~= Seq::empty());
    Ok(plan)
}

/// The largest font size that is tried, in half points: 16 points.
pub const FONT_SIZE: u32 = 32;

/// The smallest font size that is tried, in half points: 13 points.
pub const MIN_FONT_SIZE: u32 = 26;

/// The room left above each verse that is no refrain: 14 points.
pub const VERSE_GAP: u64 = 14336;

/// The parameters of one attempt at laying out a song.
#[derive(Clone, Copy, Debug, PartialEq, Eq)]
pub struct LayoutConfig {
    /// The font size, in half points.
    pub font_size: u32,
    /// The room left above each verse that is no refrain.
    pub verse_gap: u64,
    /// The height beyond which a column is full and the next verse starts a new one.
    pub column_break: Option<u64>,
}

impl LayoutConfig {
    /// The parameters of the first attempt: the largest font size, the usual gap, one
    /// column.
    pub fn new() -> (c: LayoutConfig)
        ensures
            c.font_size == FONT_SIZE,
            c.verse_gap == VERSE_GAP,
            c.column_break is None,
    {
        LayoutConfig { font_size: FONT_SIZE, verse_gap: VERSE_GAP, column_break: None }
    }

    /// Makes the font half a point smaller, to make the song narrower. Fails, and changes
    /// nothing, at the smallest font size.
    pub fn shrink_h(&mut self) -> (r: Result<(), ()>)
        ensures
            r is Ok <==> old(self).font_size > MIN_FONT_SIZE,
            r is Ok ==> final(self).font_size == old(self).font_size - 1,
            r is Err ==> final(self).font_size == old(self).font_size,
            final(self).verse_gap == old(self).verse_gap,
            final(self).column_break == old(self).column_break,
    {
        if self.font_size > MIN_FONT_SIZE {
            self.font_size = self.font_size - 1;
            Ok(())
        } else {
            Err(())
        }
    }

    /// Makes the font half a point smaller, to make the song shorter. Fails, and changes
    /// nothing, at the smallest font size.
    pub fn shrink_v(&mut self) -> (r: Result<(), ()>)
        ensures
            r is Ok <==> old(self).font_size > MIN_FONT_SIZE,
            r is Ok ==> final(self).font_size == old(self).font_size - 1,
            r is Err ==> final(self).font_size == old(self).font_size,
            final(self).verse_gap == old(self).verse_gap,
            final(self).column_break == old(self).column_break,
    {
        if self.font_size > MIN_FONT_SIZE {
            self.font_size = self.font_size - 1;
            Ok(())
        } else {
            Err(())
        }
    }
}

/// How far the layout of a song has come: where the next verse would start, but for the
/// gap above it; the width of the widest verse so far; the height of the highest column
/// that is full; the height of the column that is being filled; and whether every length
/// so far lies within the range of 64 bits.
pub struct Flow {
    pub cursor: PointView,
    pub widest: nat,
    pub tallest: nat,
    pub height: nat,
    pub in_range: bool,
}

/// The gap that stands above a verse: none above a refrain, which stays close to what is
/// above it; the gap of `config` above any other verse.
pub open spec fn gap_above(verse: VerseView, config: LayoutConfig) -> nat {
    if verse is RefrainDef {
        0
    } else {
        config.verse_gap as nat
    }
}

/// Where a verse starts: at the cursor, below the gap that stands above it.
pub open spec fn verse_start(flow: Flow, verse: VerseView, config: LayoutConfig) -> PointView {
    PointView { x: flow.cursor.x, y: flow.cursor.y + gap_above(verse, config) }
}

/// The height of the column once the verse has been added to it: the gap above the
/// verse, and the verse.
pub open spec fn grown_height(
    flow: Flow,
    verse: VerseView,
    m: VerseSizesView,
    config: LayoutConfig,
) -> nat {
    flow.height + gap_above(verse, config) + verse_size(verse, m).height
}

/// The column is full once the verse has been added to it.
pub open spec fn column_full(
    flow: Flow,
    verse: VerseView,
    m: VerseSizesView,
    config: LayoutConfig,
) -> bool {
    config.column_break matches Some(limit) && grown_height(flow, verse, m, config) > limit
}

/// The layout after one more verse.
///
/// The column grows by the gap above the verse and the height of the verse. Where that
/// makes the column full, the cursor goes to the top, to the right of the widest verse so
/// far and the gutter. The place is counted from where the verses start, not from the
/// column before.
pub open spec fn flow_step(
    flow: Flow,
    verse: VerseView,
    m: VerseSizesView,
    config: LayoutConfig,
) -> Flow {
    let at = verse_start(flow, verse, config);
    let size = verse_size(verse, m);
    let widest = larger(flow.widest, size.width);
    let height = grown_height(flow, verse, m, config);
    if column_full(flow, verse, m, config) {
        Flow {
            cursor: PointView { x: widest + GUTTER as nat, y: 0 },
            widest,
            tallest: larger(flow.tallest, height),
            height: 0,
            in_range: flow.in_range && in_range(at, size) && height <= u64::MAX && widest + GUTTER
                <= u64::MAX,
        }
    } else {
        Flow {
            cursor: PointView { x: at.x, y: at.y + size.height },
            widest,
            tallest: flow.tallest,
            height,
            in_range: flow.in_range && in_range(at, size) && height <= u64::MAX,
        }
    }
}

/// The layout after all the verses.
pub open spec fn flow_after(
    verses: Seq<VerseView>,
    measures: Seq<VerseSizesView>,
    config: LayoutConfig,
) -> Flow
    decreases verses.len(),
{
    if verses.len() == 0 {
        Flow { cursor: PointView { x: 0, y: 0 }, widest: 0, tallest: 0, height: 0, in_range: true }
    } else {
        flow_step(
            flow_after(verses.drop_last(), measures.drop_last(), config),
            verses.last(),
            measures.last(),
            config,
        )
    }
}

/// Where every piece of a song goes, and the room that the song takes.
#[derive(Debug, PartialEq, Eq)]
pub struct PagePlan {
    /// The plan of each verse, in order.
    pub verses: Vec<VersePlan>,
    /// The room that the song takes: the width of its widest verse, the height of its
    /// highest column.
    pub size: Size,
    /// Where the cursor stands after the last verse.
    pub end: Point,
}

/// The mathematical value of a [`PagePlan`].
pub struct PagePlanView {
    pub verses: Seq<VersePlanView>,
    pub size: SizeView,
    pub end: PointView,
}

/// The values of a sequence of verse plans.
pub open spec fn plans_view(plans: Seq<VersePlan>) -> Seq<VersePlanView> {
    plans.map_values(|p: VersePlan| p@)
}

impl View for PagePlan {
    type V = PagePlanView;

    open spec fn view(&self) -> PagePlanView {
        PagePlanView { verses: plans_view(self.verses@), size: self.size@, end: self.end@ }
    }
}

/// There is a measurement for each verse, and each matches its verse.
pub open spec fn measures_match(verses: Seq<VerseView>, measures: Seq<VerseSizesView>) -> bool {
    &&& measures.len() == verses.len()
    &&& forall|i: int| 0 <= i < verses.len() ==> measure_matches(#[trigger] verses[i], measures[i])
}

/// The room that the verses take: the width of the widest verse, the height of the
/// highest column.
pub open spec fn page_size(
    verses: Seq<VerseView>,
    measures: Seq<VerseSizesView>,
    config: LayoutConfig,
) -> SizeView {
    let flow = flow_after(verses, measures, config);
    SizeView { width: flow.widest, height: larger(flow.tallest, flow.height) }
}

/// Where the verse at `i` starts.
pub open spec fn start_of(
    verses: Seq<VerseView>,
    measures: Seq<VerseSizesView>,
    config: LayoutConfig,
    i: int,
) -> PointView {
    verse_start(
        flow_after(verses.subrange(0, i), measures.subrange(0, i), config),
        verses[i],
        config,
    )
}

/// Where every piece of the verses goes, and the room that they take.
pub open spec fn page_plan(
    verses: Seq<VerseView>,
    measures: Seq<VerseSizesView>,
    config: LayoutConfig,
) -> PagePlanView {
    PagePlanView {
        verses: Seq::new(
            verses.len(),
            |i: int| verse_plan(verses[i], measures[i], start_of(verses, measures, config, i)),
        ),
        size: page_size(verses, measures, config),
        end: flow_after(verses, measures, config).cursor,
    }
}

/// Every length of the layout lies within the range of 64 bits: each verse where it
/// stands, the height of each column, and the cursor.
pub open spec fn page_in_range(
    verses: Seq<VerseView>,
    measures: Seq<VerseSizesView>,
    config: LayoutConfig,
) -> bool {
    flow_after(verses, measures, config).in_range
}

/// Once a length is out of range, the layout stays out of range.
pub proof fn lemma_out_of_range_stays(
    verses: Seq<VerseView>,
    measures: Seq<VerseSizesView>,
    config: LayoutConfig,
    k: int,
)
    requires
        measures.len() == verses.len(),
        0 <= k <= verses.len(),
        !flow_after(verses.subrange(0, k), measures.subrange(0, k), config).in_range,
    ensures
        !flow_after(verses, measures, config).in_range,
    decreases verses.len() - k,
{
    if k < verses.len() {
        assert(verses.subrange(0, k + 1).drop_last() =~= verses.subrange(0, k));
        assert(measures.subrange(0, k + 1).drop_last() =~= measures.subrange(0, k));
        lemma_out_of_range_stays(verses, measures, config, k + 1);
    } else {
        assert(verses.subrange(0, k) =~= verses);
        assert(measures.subrange(0, k) =~= measures);
    }
}

/// Whether there is a measurement for each verse that matches it.
pub fn check_measures(verses: &Vec<Verse>, measures: &Vec<VerseSizes>) -> (b: bool)
    ensures
        b == measures_match(verses_view(verses@), measures_view(measures@)),
{
    if measures.len() != verses.len() {
        return false;
    }
    let n = verses.len();
    let mut i: usize = 0;
    while i < n
        invariant
            n == verses@.len(),
            n == measures@.len(),
            i <= n,
            forall|k: int|
                0 <= k < i ==> measure_matches(
                    #[trigger] verses_view(verses@)[k],
                    measures_view(measures@)[k],
                ),
        decreases n - i,
    {
        let wanted = match &verses[i] {
            Verse::Normal(lines) => lines.len(),
            Verse::ChorusDef(_, lines) => lines.len(),
            Verse::RefrainDef(_, lines) => lines.len(),
            Verse::ChorusRef(_) => 0,
            Verse::SectionBreak(_) => 0,
        };
        if measures[i].lines.len() != wanted {
            assert(!measure_matches(
                verses_view(verses@)[i as int],
                measures_view(measures@)[i as int],
            ));
            return false;
        }
        assert(measure_matches(verses_view(verses@)[i as int], measures_view(measures@)[i as int]));
        i += 1;
    }
    true
}

/// Lays out the verses of a song one below the other, given the measured sizes of their
/// pieces: where every piece goes, and the room that the song takes.
///
/// Above each verse but a refrain stands a gap, which counts in the height of the column.
/// Where `config.column_break` is set and a column has grown beyond it, the next verse
/// starts a new column.
pub fn layout_verses(verses: &Vec<Verse>, measures: &Vec<VerseSizes>, config: &LayoutConfig) -> (r:
    Result<PagePlan, LayoutError>)
    ensures
        match r {
            Ok(plan) => {
                &&& measures_match(verses_view(verses@), measures_view(measures@))
                &&& page_in_range(verses_view(verses@), measures_view(measures@), *config)
                &&& plan@ == page_plan(verses_view(verses@), measures_view(measures@), *config)
            },
            Err(LayoutError::Mismatch) => !measures_match(
                verses_view(verses@),
                measures_view(measures@),
            ),
            Err(LayoutError::Overflow) => {
                &&& measures_match(verses_view(verses@), measures_view(measures@))
                &&& !page_in_range(verses_view(verses@), measures_view(measures@), *config)
            },
        },
{
    if !check_measures(verses, measures) {
        return Err(LayoutError::Mismatch);
    }
    let ghost vs = verses_view(verses@);
    let ghost ms = measures_view(measures@);
    let n = verses.len();
    let mut plans: Vec<VersePlan> = Vec::new();
    let mut cursor = Point { x: 0, y: 0 };
    let mut widest = Maximum::new(0);
    let mut tallest = Maximum::new(0);
    let mut height: u64 = 0;
    let mut i: usize = 0;
    while i < n
        invariant
            n == verses@.len(),
            n == measures@.len(),
            i <= n,
            vs == verses_view(verses@),
            ms == measures_view(measures@),
            measures_match(vs, ms),
            flow_after(vs.subrange(0, i as int), ms.subrange(0, i as int), *config) == (Flow {
                cursor: cursor@,
                widest: widest.0 as nat,
                tallest: tallest.0 as nat,
                height: height as nat,
                in_range: true,
            }),
            plans@.len() == i,
            forall|k: int|
                0 <= k < i ==> (#[trigger] plans@[k])@ == verse_plan(
                    vs[k],
                    ms[k],
                    start_of(vs, ms, *config, k),
                ),
        decreases n - i,
    {
        let ghost before = flow_after(vs.subrange(0, i as int), ms.subrange(0, i as int), *config);
        proof {
            assert(vs.subrange(0, i + 1).drop_last() =~= vs.subrange(0, i as int));
            assert(ms.subrange(0, i + 1).drop_last() =~= ms.subrange(0, i as int));
            assert(vs.subrange(0, i + 1).last() == verses@[i as int]@);
            assert(ms.subrange(0, i + 1).last() == measures@[i as int]@);
            assert(measure_matches(vs[i as int], ms[i as int]));
            assert(flow_after(vs.subrange(0, i + 1), ms.subrange(0, i + 1), *config) == flow_step(
                before,
                vs[i as int],
                ms[i as int],
                *config,
            ));
        }
        let gap = match &verses[i] {
            Verse::RefrainDef(_, _) => 0,
            _ => config.verse_gap,
        };
        assert(gap == gap_above(vs[i as int], *config));
        let at = match cursor.y.checked_add(gap) {
            Some(y) => Point { x: cursor.x, y },
            None => {
                proof {
                    lemma_out_of_range_stays(vs, ms, *config, i + 1);
                }
                return Err(LayoutError::Overflow);
            },
        };
        let plan = match layout_verse(&verses[i], &measures[i], at) {
            Ok(plan) => plan,
            Err(_) => {
                proof {
                    lemma_out_of_range_stays(vs, ms, *config, i + 1);
                }
                return Err(LayoutError::Overflow);
            },
        };
        let size = plan.size;
        widest.see(size.width);
        let grown = match height.checked_add(gap) {
            Some(h) => h.checked_add(size.height),
            None => None,
        };
        height = match grown {
            Some(h) => h,
            None => {
                proof {
                    lemma_out_of_range_stays(vs, ms, *config, i + 1);
                }
                return Err(LayoutError::Overflow);
            },
        };
        let full = match config.column_break {
            Some(limit) => height > limit,
            None => false,
        };
        assert(full == column_full(before, vs[i as int], ms[i as int], *config));
        if full {
            tallest.see(height);
            height = 0;
            cursor = match widest.get().checked_add(GUTTER) {
                Some(x) => Point { x, y: 0 },
                None => {
                    proof {
                        lemma_out_of_range_stays(vs, ms, *config, i + 1);
                    }
                    return Err(LayoutError::Overflow);
                },
            };
        } else {
            cursor = Point { x: at.x, y: at.y + size.height };
        }
        plans.push(plan);
        i += 1;
    }
    proof {
        assert(vs.subrange(0, n as int) =~= vs);
        assert(ms.subrange(0, n as int) =~= ms);
        assert(plans_view(plans@) =~= page_plan(vs, ms, *config).verses);
    }
    tallest.see(height);
    let size = Size { width: widest.get(), height: tallest.get() };
    Ok(PagePlan { verses: plans, size, end: cursor })
}

/// The height of the verses stacked in one column: each verse, and the gap above each that
/// is no refrain.
pub open spec fn stacked_height(
    verses: Seq<VerseView>,
    measures: Seq<VerseSizesView>,
    config: LayoutConfig,
) -> nat
    decreases verses.len(),
{
    if verses.len() == 0 {
        0
    } else {
        stacked_height(verses.drop_last(), measures.drop_last(), config) + gap_above(
            verses.last(),
            config,
        ) + verse_size(verses.last(), measures.last()).height
    }
}

/// The width of the widest verse.
pub open spec fn widest_verse(verses: Seq<VerseView>, measures: Seq<VerseSizesView>) -> nat
    decreases verses.len(),
{
    if verses.len() == 0 {
        0
    } else {
        larger(
            widest_verse(verses.drop_last(), measures.drop_last()),
            verse_size(verses.last(), measures.last()).width,
        )
    }
}

/// In one column a song is as wide as its widest verse, and as high as its verses and
/// the gaps above those that are no refrain; the cursor ends below the last verse.
pub proof fn law_one_column_size(
    verses: Seq<VerseView>,
    measures: Seq<VerseSizesView>,
    config: LayoutConfig,
)
    requires
        config.column_break is None,
    ensures
        page_size(verses, measures, config) == (SizeView {
            width: widest_verse(verses, measures),
            height: stacked_height(verses, measures, config),
        }),
        flow_after(verses, measures, config).cursor == (PointView {
            x: 0,
            y: stacked_height(verses, measures, config),
        }),
        flow_after(verses, measures, config).tallest == 0,
    decreases verses.len(),
{
    if verses.len() > 0 {
        law_one_column_size(verses.drop_last(), measures.drop_last(), config);
    }
}

/// The first size is no wider and no higher than the second.
pub open spec fn size_le(a: SizeView, b: SizeView) -> bool {
    a.width <= b.width && a.height <= b.height
}

/// Each size of the first run is no wider and no higher than its fellow in the second.
pub open spec fn sizes_le(a: Seq<SizeView>, b: Seq<SizeView>) -> bool {
    &&& a.len() == b.len()
    &&& forall|j: int| 0 <= j < a.len() ==> size_le(#[trigger] a[j], b[j])
}

/// Each piece of the first measurement is no wider and no higher than its fellow in the
/// second.
pub open spec fn measure_le(a: VerseSizesView, b: VerseSizesView) -> bool {
    size_le(a.label, b.label) && sizes_le(a.lines, b.lines)
}

/// Each measurement of the first run is, piece by piece, no larger than its fellow in the
/// second.
pub open spec fn measures_le(a: Seq<VerseSizesView>, b: Seq<VerseSizesView>) -> bool {
    &&& a.len() == b.len()
    &&& forall|i: int| 0 <= i < a.len() ==> measure_le(#[trigger] a[i], b[i])
}

/// Larger lines make a stack that is no smaller.
pub proof fn lemma_lines_size_monotonic(indents: Seq<nat>, a: Seq<SizeView>, b: Seq<SizeView>)
    requires
        sizes_le(a, b),
    ensures
        size_le(lines_size(indents, a), lines_size(indents, b)),
    decreases a.len(),
{
    if a.len() > 0 {
        assert(size_le(a[a.len() - 1], b[a.len() - 1]));
        assert forall|j: int| 0 <= j < a.drop_last().len() implies size_le(
            #[trigger] a.drop_last()[j],
            b.drop_last()[j],
        ) by {
            assert(size_le(a[j], b[j]));
        }
        lemma_lines_size_monotonic(indents.drop_last(), a.drop_last(), b.drop_last());
    }
}

/// Larger pieces make a verse that is no smaller.
pub proof fn lemma_verse_size_monotonic(verse: VerseView, a: VerseSizesView, b: VerseSizesView)
    requires
        measure_le(a, b),
    ensures
        size_le(verse_size(verse, a), verse_size(verse, b)),
{
    if let Some(lines) = verse.lines() {
        lemma_lines_size_monotonic(line_indents(lines), a.lines, b.lines);
    }
}

/// Larger pieces make the widest verse no narrower, and, in one column, the column no
/// lower.
pub proof fn lemma_flow_monotonic(
    verses: Seq<VerseView>,
    small: Seq<VerseSizesView>,
    large: Seq<VerseSizesView>,
    config: LayoutConfig,
)
    requires
        small.len() == verses.len(),
        measures_le(small, large),
    ensures
        flow_after(verses, small, config).widest <= flow_after(verses, large, config).widest,
        config.column_break is None ==> {
            &&& flow_after(verses, small, config).height <= flow_after(
                verses,
                large,
                config,
            ).height
            &&& flow_after(verses, small, config).tallest == 0
            &&& flow_after(verses, large, config).tallest == 0
        },
    decreases verses.len(),
{
    if verses.len() > 0 {
        let n = verses.len() - 1;
        assert(measure_le(small[n], large[n]));
        assert forall|i: int| 0 <= i < small.drop_last().len() implies measure_le(
            #[trigger] small.drop_last()[i],
            large.drop_last()[i],
        ) by {
            assert(measure_le(small[i], large[i]));
        }
        lemma_flow_monotonic(verses.drop_last(), small.drop_last(), large.drop_last(), config);
        lemma_verse_size_monotonic(verses.last(), small.last(), large.last());
    }
}

/// The room that a song takes grows with its pieces. Where each piece of text measures
/// no less in one attempt than in another, as it does at a larger font size, the song
/// is no narrower in the one than in the other, and in one column no lower; so it is
/// never smaller in both width and height.
pub proof fn law_page_size_monotonic(
    verses: Seq<VerseView>,
    small: Seq<VerseSizesView>,
    large: Seq<VerseSizesView>,
    config: LayoutConfig,
)
    requires
        small.len() == verses.len(),
        measures_le(small, large),
    ensures
        page_size(verses, small, config).width <= page_size(verses, large, config).width,
        config.column_break is None ==> page_size(verses, small, config).height <= page_size(
            verses,
            large,
            config,
        ).height,
        !(page_size(verses, large, config).width < page_size(verses, small, config).width
            && page_size(verses, large, config).height < page_size(verses, small, config).height),
{
    lemma_flow_monotonic(verses, small, large, config);
}

} // verus!
