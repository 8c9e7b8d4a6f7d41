//! The search for a font size at which a song fits the room it has.
//!
//! Font sizes are tried from the largest down, half a point at a time. The first that
//! fits is taken. Where none fits, the smallest is taken all the same, and the song
//! overflows its room.

use vstd::prelude::*;
use crate::layout::{LayoutConfig, LayoutError, MIN_FONT_SIZE, Size};

verus! {

/// How a measured size compares with the room available.
#[derive(Clone, Copy, Debug, PartialEq, Eq, Structural)]
pub enum Fit {
    Fits,
    TooWide,
    TooTall,
}

/// How `size` compares with `avail`: too wide if it is wider, else too tall if it is
/// higher, else it fits.
pub open spec fn fit_of(size: Size, avail: Size) -> Fit {
    if size.width > avail.width {
        Fit::TooWide
    } else if size.height > avail.height {
        Fit::TooTall
    } else {
        Fit::Fits
    }
}

/// How a measured size compares with the room available.
pub fn classify(size: Size, avail: Size) -> (f: Fit)
    ensures
        f == fit_of(size, avail),
{
    if size.width > avail.width {
        Fit::TooWide
    } else if size.height > avail.height {
        Fit::TooTall
    } else {
        Fit::Fits
    }
}

/// What to do after an attempt.
#[derive(Clone, Copy, Debug, PartialEq, Eq, Structural)]
pub enum Step {
    /// The song does not fit and the font can shrink: measure again with the
    /// parameters as they now are.
    Retry,
    /// The song fits: paint it with these parameters.
    Commit,
    /// The song does not fit and the font cannot shrink: paint it with these
    /// parameters all the same, and warn that it does not fit.
    CommitOverflowing,
}

/// Decides what follows an attempt that measured `measured` in a room of `avail`, and
/// shrinks the font where another attempt is due.
pub fn next_step(config: &mut LayoutConfig, measured: Size, avail: Size) -> (step: Step)
    ensures
        final(config).verse_gap == old(config).verse_gap,
        final(config).column_break == old(config).column_break,
        step == (if fit_of(measured, avail) is Fits {
            Step::Commit
        } else if old(config).font_size > MIN_FONT_SIZE {
            Step::Retry
        } else {
            Step::CommitOverflowing
        }),
        final(config).font_size == (if step is Retry {
            (old(config).font_size - 1) as u32
        } else {
            old(config).font_size
        }),
{
    let shrunk = match classify(measured, avail) {
        Fit::Fits => {
            return Step::Commit;
        },
        Fit::TooWide => config.shrink_h(),
        Fit::TooTall => config.shrink_v(),
    };
    match shrunk {
        Ok(()) => Step::Retry,
        Err(()) => Step::CommitOverflowing,
    }
}

/// The outcome of a search.
#[derive(Debug, PartialEq, Eq)]
pub struct Fitted {
    /// The parameters to paint with.
    pub config: LayoutConfig,
    /// The size measured with them.
    pub size: Size,
    /// Whether that size fits the room. Where it does not, the song is painted all the
    /// same and overflows.
    pub fits: bool,
    /// What each attempt measured, the first attempt first.
    pub tried: Vec<Size>,
}

/// The parameters of the attempt after `k` shrinkings.
pub open spec fn attempt(start: LayoutConfig, k: int) -> LayoutConfig {
    LayoutConfig {
        font_size: (start.font_size - k) as u32,
        verse_gap: start.verse_gap,
        column_break: start.column_break,
    }
}

/// `tried` is what the attempts of a whole search measured, one after the other: each
/// attempt but the last did not fit and left room to shrink; the last fits, or leaves no
/// room to shrink.
pub open spec fn is_search(tried: Seq<Size>, start: LayoutConfig, avail: Size) -> bool {
    &&& tried.len() >= 1
    &&& forall|k: int|
        0 <= k < tried.len() - 1 ==> !(fit_of(#[trigger] tried[k], avail) is Fits)
            && start.font_size - k > MIN_FONT_SIZE
    &&& fit_of(tried.last(), avail) is Fits || start.font_size - (tried.len() - 1)
        <= MIN_FONT_SIZE
}

/// Each attempt that `tried` holds did not fit, and left room to shrink.
pub open spec fn none_fits(tried: Seq<Size>, start: LayoutConfig, avail: Size) -> bool {
    forall|k: int|
        0 <= k < tried.len() ==> !(fit_of(#[trigger] tried[k], avail) is Fits) && start.font_size
            - k > MIN_FONT_SIZE
}

/// `tried` holds what `dry_run` measured, attempt by attempt: the first at the parameters
/// of `start`, each after it at a font half a point smaller.
pub open spec fn measured_by<F: Fn(LayoutConfig) -> Result<Size, LayoutError>>(
    dry_run: F,
    start: LayoutConfig,
    tried: Seq<Size>,
) -> bool {
    forall|k: int|
        0 <= k < tried.len() ==> dry_run.ensures(
            (attempt(start, k),),
            Ok::<Size, LayoutError>(#[trigger] tried[k]),
        )
}

/// The search ended in a failure to measure: the attempts before it measured `tried`,
/// none of which fit, and the attempt after them failed with `e`.
pub open spec fn measuring_failed<F: Fn(LayoutConfig) -> Result<Size, LayoutError>>(
    dry_run: F,
    start: LayoutConfig,
    avail: Size,
    tried: Seq<Size>,
    e: LayoutError,
) -> bool {
    &&& none_fits(tried, start, avail)
    &&& measured_by(dry_run, start, tried)
    &&& dry_run.ensures((attempt(start, tried.len() as int),), Err::<Size, LayoutError>(e))
}

/// The search settled, and painting failed: the attempts measured `tried`, a whole
/// search, and painting with the parameters of the last attempt failed with `e`.
pub open spec fn painting_failed<
    D: Fn(LayoutConfig) -> Result<Size, LayoutError>,
    C: FnOnce(LayoutConfig) -> Result<(), LayoutError>,
>(dry_run: D, commit: C, start: LayoutConfig, avail: Size, tried: Seq<Size>, e: LayoutError) -> bool {
    &&& is_search(tried, start, avail)
    &&& measured_by(dry_run, start, tried)
    &&& commit.ensures((attempt(start, tried.len() - 1),), Err::<(), LayoutError>(e))
}

/// Searches for the largest font size, from that of `start` down, at which the song fits
/// `avail`. `dry_run` lays the song out with the parameters it is given and says how
/// much room it takes.
///
/// The search stops at the first attempt that fits. Where the font cannot shrink any
/// more, the last attempt is the outcome though it does not fit. A failure of `dry_run`
/// ends the search and is handed on: it is the failure of the attempt that follows
/// attempts of which none fit.
pub fn find_fit<F: Fn(LayoutConfig) -> Result<Size, LayoutError>>(
    start: LayoutConfig,
    avail: Size,
    dry_run: F,
) -> (r: Result<Fitted, LayoutError>)
    requires
        forall|c: LayoutConfig| dry_run.requires((c,)),
    ensures
        match r {
            Ok(f) => {
                &&& is_search(f.tried@, start, avail)
                &&& measured_by(dry_run, start, f.tried@)
                &&& f.config == attempt(start, f.tried@.len() - 1)
                &&& f.size == f.tried@.last()
                &&& f.fits == (fit_of(f.size, avail) is Fits)
            },
            Err(e) => exists|tried: Seq<Size>| measuring_failed(dry_run, start, avail, tried, e),
        },
{
    let mut config = start;
    let mut tried: Vec<Size> = Vec::new();
    loop
        invariant
            forall|c: LayoutConfig| dry_run.requires((c,)),
            tried@.len() <= start.font_size,
            config == attempt(start, tried@.len() as int),
            start.font_size - tried@.len() >= 0,
            none_fits(tried@, start, avail),
            measured_by(dry_run, start, tried@),
        decreases config.font_size,
    {
        let size = match dry_run(config) {
            Ok(size) => size,
            Err(e) => {
                assert(measuring_failed(dry_run, start, avail, tried@, e));
                return Err(e);
            },
        };
        let used = config;
        tried.push(size);
        match next_step(&mut config, size, avail) {
            Step::Retry => {},
            Step::Commit => {
                return Ok(Fitted { config: used, size, fits: true, tried });
            },
            Step::CommitOverflowing => {
                return Ok(Fitted { config: used, size, fits: false, tried });
            },
        }
    }
}

/// Searches for the font size at which the song fits `avail`, as [`find_fit`] does, and
/// has the song painted once, with the parameters that the search settles on. `dry_run`
/// lays the song out and says how much room it takes; `commit` lays it out in the same
/// way and paints it.
///
/// Where the song fits at no font size it is painted at the smallest all the same, and the
/// outcome says that it does not fit. A failure of `dry_run` ends the search with nothing
/// painted; a failure of `commit` is handed on.
pub fn fit_and_render<D, C>(start: LayoutConfig, avail: Size, dry_run: D, commit: C) -> (r: Result<
    Fitted,
    LayoutError,
>) where
    D: Fn(LayoutConfig) -> Result<Size, LayoutError>,
    C: FnOnce(LayoutConfig) -> Result<(), LayoutError>,

    requires
        forall|c: LayoutConfig| dry_run.requires((c,)),
        forall|c: LayoutConfig| commit.requires((c,)),
    ensures
        match r {
            Ok(f) => {
                &&& is_search(f.tried@, start, avail)
                &&& measured_by(dry_run, start, f.tried@)
                &&& f.config == attempt(start, f.tried@.len() - 1)
                &&& f.size == f.tried@.last()
                &&& f.fits == (fit_of(f.size, avail) is Fits)
                &&& commit.ensures((f.config,), Ok::<(), LayoutError>(()))
            },
            Err(e) => {
                ||| exists|tried: Seq<Size>| measuring_failed(dry_run, start, avail, tried, e)
                ||| exists|tried: Seq<Size>|
                    painting_failed(dry_run, commit, start, avail, tried, e)
            },
        },
{
    let fitted = match find_fit(start, avail, dry_run) {
        Ok(fitted) => fitted,
        Err(e) => {
            return Err(e);
        },
    };
    let used = fitted.config;
    let done = commit(used);
    assert(commit.ensures((used,), done));
    match done {
        Ok(u) => {
            assert(u == ());
            Ok(fitted)
        },
        Err(e) => {
            assert(painting_failed(dry_run, commit, start, avail, fitted.tried@, e));
            Err(e)
        },
    }
}

} // verus!
