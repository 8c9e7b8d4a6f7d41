//! Indent normalization: raw indentation widths become small dense ordinals.

use vstd::prelude::*;
use vstd::seq_lib::seq_to_set_distributes_over_add;
use crate::model::{
    FormattedText, FormattedTextView, Song, SongView, Verse, VerseView, lines_view, verse_lines,
    verse_lines_mut, verses_view,
};

verus! {

/// The indents of a run of lines, in order.
pub open spec fn line_indents(lines: Seq<FormattedTextView>) -> Seq<nat> {
    lines.map_values(|l: FormattedTextView| l.indent)
}

/// The indents of the lines that a verse owns.
pub open spec fn verse_indents(verse: VerseView) -> Seq<nat> {
    match verse.lines() {
        Some(lines) => line_indents(lines),
        None => Seq::empty(),
    }
}

/// The indents of all lines that the verses own, verse after verse.
pub open spec fn song_indents(verses: Seq<VerseView>) -> Seq<nat>
    decreases verses.len(),
{
    if verses.len() == 0 {
        Seq::empty()
    } else {
        song_indents(verses.drop_last()) + verse_indents(verses.last())
    }
}

/// The distinct indents that occur in the lines that the verses own.
pub open spec fn indent_set(verses: Seq<VerseView>) -> Set<nat> {
    song_indents(verses).to_set()
}

/// The number of members of `among` that are smaller than `v`.
pub open spec fn rank(v: nat, among: Set<nat>) -> nat {
    among.filter(|x: nat| x < v).len()
}

/// The line with its indent replaced by the indent's rank.
pub open spec fn reindent_line(line: FormattedTextView, among: Set<nat>) -> FormattedTextView {
    FormattedTextView {
        text: line.text,
        formatting: line.formatting,
        indent: rank(line.indent, among),
    }
}

/// The lines, each with its indent replaced by the indent's rank.
pub open spec fn reindent_lines(lines: Seq<FormattedTextView>, among: Set<nat>) -> Seq<
    FormattedTextView,
> {
    lines.map_values(|l: FormattedTextView| reindent_line(l, among))
}

/// The verse, each of its lines with its indent replaced by the indent's rank.
pub open spec fn reindent_verse(verse: VerseView, among: Set<nat>) -> VerseView {
    match verse {
        VerseView::Normal(lines) => VerseView::Normal(reindent_lines(lines, among)),
        VerseView::ChorusDef(label, lines) => VerseView::ChorusDef(
            label,
            reindent_lines(lines, among),
        ),
        VerseView::RefrainDef(label, lines) => VerseView::RefrainDef(
            label,
            reindent_lines(lines, among),
        ),
        VerseView::ChorusRef(label) => VerseView::ChorusRef(label),
        VerseView::SectionBreak(label) => VerseView::SectionBreak(label),
    }
}

/// The verses, each line's indent replaced by its rank among `among`.
pub open spec fn reindent_verses(verses: Seq<VerseView>, among: Set<nat>) -> Seq<VerseView> {
    verses.map_values(|v: VerseView| reindent_verse(v, among))
}

/// The song with every line's indent replaced by its rank among the distinct indents of
/// the song: the smallest indent becomes 0, the next 1, and so on.
pub open spec fn normalized(song: SongView) -> SongView {
    SongView { meta: song.meta, verses: reindent_verses(song.verses, indent_set(song.verses)) }
}

/// Each member is smaller than the next.
pub open spec fn increasing(q: Seq<nat>) -> bool {
    forall|i: int, j: int| 0 <= i < j < q.len() ==> q[i] < q[j]
}

/// The members of `q` as natural numbers.
pub open spec fn nats(q: Seq<usize>) -> Seq<nat> {
    q.map_values(|x: usize| x as nat)
}

/// In an increasing sequence, the rank of a member among all of them is its index.
pub proof fn lemma_rank_is_index(q: Seq<nat>, i: int)
    requires
        increasing(q),
        0 <= i < q.len(),
    ensures
        rank(q[i], q.to_set()) == i,
{
    let below = q.to_set().filter(|x: nat| x < q[i]);
    let head = q.subrange(0, i);
    assert forall|x: nat| below.contains(x) <==> head.to_set().contains(x) by {
        if below.contains(x) {
            let j = choose|j: int| 0 <= j < q.len() && q[j] == x;
            assert(j < i) by {
                if j > i {
                    assert(q[i] < q[j]);
                }
            }
            assert(head[j] == x);
        }
        if head.to_set().contains(x) {
            let j = choose|j: int| 0 <= j < head.len() && head[j] == x;
            assert(q[j] == x);
            assert(q.contains(x));
        }
    }
    assert(below =~= head.to_set());
    assert(head.no_duplicates()) by {
        assert forall|a: int, b: int|
            0 <= a < head.len() && 0 <= b < head.len() && a != b implies head[a] != head[b] by {
            if a < b {
                assert(q[a] < q[b]);
            } else {
                assert(q[b] < q[a]);
            }
        }
    }
    head.unique_seq_to_set();
}

/// Puts `v` in its place in the increasing list `sizes`, unless it is there already.
fn note_indent(sizes: &mut Vec<usize>, v: usize)
    requires
        increasing(nats(old(sizes)@)),
    ensures
        increasing(nats(final(sizes)@)),
        nats(final(sizes)@).to_set() == nats(old(sizes)@).to_set().insert(v as nat),
{
    let n = sizes.len();
    let mut pos: usize = 0;
    while pos < n && sizes[pos] < v
        invariant
            n == sizes@.len(),
            pos <= n,
            sizes@ == old(sizes)@,
            forall|j: int| 0 <= j < pos ==> sizes@[j] < v,
        decreases n - pos,
    {
        pos += 1;
    }
    let ghost q = nats(sizes@);
    if pos < n && sizes[pos] == v {
        proof {
            assert(q[pos as int] == v as nat);
            assert(q.contains(v as nat));
            assert(q.to_set().insert(v as nat) =~= q.to_set());
        }
        return;
    }
    let ghost before = sizes@;
    sizes.insert(pos, v);
    proof {
        let after = nats(sizes@);
        let p = pos as int;
        assert(sizes@.len() == before.len() + 1);
        assert forall|j: int| 0 <= j < after.len() implies after[j] == (if j < p {
            q[j]
        } else if j == p {
            v as nat
        } else {
            q[j - 1]
        }) by {}
        assert forall|i: int, j: int| 0 <= i < j < after.len() implies after[i] < after[j] by {
            if j < p {
                assert(q[i] < q[j]);
            } else if j > p {
                if i < p {
                    assert(q[i] < q[j - 1]);
                } else if i == p {
                    assert(q[p] >= v);
                    if p < j - 1 {
                        assert(q[p] < q[j - 1]);
                    }
                } else {
                    assert(q[i - 1] < q[j - 1]);
                }
            }
        }
        assert forall|x: nat| after.to_set().contains(x) <==> q.to_set().insert(v as nat).contains(
            x,
        ) by {
            if after.to_set().contains(x) {
                let j = choose|j: int| 0 <= j < after.len() && after[j] == x;
                if j < p {
                    assert(q[j] == x);
                    assert(q.contains(x));
                } else if j > p {
                    assert(q[j - 1] == x);
                    assert(q.contains(x));
                }
            }
            if q.to_set().contains(x) {
                let j = choose|j: int| 0 <= j < q.len() && q[j] == x;
                if j < p {
                    assert(after[j] == x);
                } else {
                    assert(after[j + 1] == x);
                }
                assert(after.contains(x));
            }
            if x == v as nat {
                assert(after[p] == x);
                assert(after.contains(x));
            }
        }
        assert(after.to_set() =~= q.to_set().insert(v as nat));
    }
}

/// Where `v` stands in the increasing list `sizes`.
fn index_of(sizes: &Vec<usize>, v: usize) -> (r: usize)
    requires
        nats(sizes@).contains(v as nat),
    ensures
        r < sizes@.len(),
        sizes@[r as int] == v,
{
    let n = sizes.len();
    let mut i: usize = 0;
    while i < n
        invariant
            n == sizes@.len(),
            i <= n,
            nats(sizes@).contains(v as nat),
            forall|j: int| 0 <= j < i ==> sizes@[j] != v,
        decreases n - i,
    {
        if sizes[i] == v {
            return i;
        }
        i += 1;
    }
    proof {
        let j = choose|j: int| 0 <= j < nats(sizes@).len() && nats(sizes@)[j] == v as nat;
        assert(sizes@[j] == v);
    }
    0
}

/// Puts the indents of `lines` into the increasing list `sizes`.
fn note_lines(lines: &Vec<FormattedText>, sizes: &mut Vec<usize>)
    requires
        increasing(nats(old(sizes)@)),
    ensures
        increasing(nats(final(sizes)@)),
        nats(final(sizes)@).to_set() == nats(old(sizes)@).to_set().union(
            line_indents(lines_view(lines@)).to_set(),
        ),
{
    let ghost all = line_indents(lines_view(lines@));
    let ghost start = nats(sizes@).to_set();
    let n = lines.len();
    let mut j: usize = 0;
    proof {
        assert(start.union(all.subrange(0, 0).to_set()) =~= start);
    }
    while j < n
        invariant
            n == lines@.len(),
            j <= n,
            all == line_indents(lines_view(lines@)),
            increasing(nats(sizes@)),
            nats(sizes@).to_set() == start.union(all.subrange(0, j as int).to_set()),
        decreases n - j,
    {
        let ghost seen = all.subrange(0, j as int);
        note_indent(sizes, lines[j].indent);
        proof {
            let v = lines@[j as int].indent as nat;
            assert(all[j as int] == v);
            assert(all.subrange(0, j + 1) =~= seen.push(v));
            seen.lemma_push_to_set_commute(v);
            assert(start.union(seen.to_set()).insert(v) =~= start.union(seen.to_set().insert(v)));
        }
        j += 1;
    }
    proof {
        assert(all.subrange(0, n as int) =~= all);
    }
}

/// Replaces the indent of each line by its place in the increasing list `sizes`.
fn reindent(lines: &mut Vec<FormattedText>, sizes: &Vec<usize>)
    requires
        increasing(nats(sizes@)),
        forall|j: int|
            0 <= j < old(lines)@.len() ==> nats(sizes@).contains(
                (#[trigger] old(lines)@[j]).indent as nat,
            ),
    ensures
        lines_view(final(lines)@) == reindent_lines(
            lines_view(old(lines)@),
            nats(sizes@).to_set(),
        ),
{
    let ghost among = nats(sizes@).to_set();
    let ghost before = lines_view(lines@);
    let n = lines.len();
    let mut j: usize = 0;
    while j < n
        invariant
            n == lines@.len(),
            n == before.len(),
            j <= n,
            among == nats(sizes@).to_set(),
            increasing(nats(sizes@)),
            before == lines_view(old(lines)@),
            forall|k: int|
                0 <= k < n ==> nats(sizes@).contains((#[trigger] old(lines)@[k]).indent as nat),
            forall|k: int| 0 <= k < j ==> (#[trigger] lines@[k])@ == reindent_line(before[k], among),
            forall|k: int| j <= k < n ==> lines@[k] == old(lines)@[k],
        decreases n - j,
    {
        let r = index_of(sizes, lines[j].indent);
        proof {
            lemma_rank_is_index(nats(sizes@), r as int);
        }
        lines[j].indent = r;
        j += 1;
    }
    proof {
        assert(lines_view(lines@) =~= reindent_lines(before, among));
    }
}

/// The indents of a verse's lines are among the song's indents.
pub proof fn lemma_indent_occurs(verses: Seq<VerseView>, i: int, j: int)
    requires
        0 <= i < verses.len(),
        0 <= j < verse_indents(verses[i]).len(),
    ensures
        indent_set(verses).contains(verse_indents(verses[i])[j]),
    decreases verses.len(),
{
    let head = song_indents(verses.drop_last());
    let tail = verse_indents(verses.last());
    let all = song_indents(verses);
    if i == verses.len() - 1 {
        assert(all[head.len() + j] == tail[j]);
    } else {
        lemma_indent_occurs(verses.drop_last(), i, j);
        let x = verse_indents(verses[i])[j];
        let k = choose|k: int| 0 <= k < head.len() && head[k] == x;
        assert(all[k] == x);
    }
}

/// Rescales the indents of all lines: the smallest indent that occurs in the song
/// becomes 0, the next 1, and so on. Nothing else changes.
pub fn normalize_indents(song: &mut Song)
    ensures
        final(song)@ == normalized(old(song)@),
{
    let ghost before = verses_view(song.verses@);
    let mut sizes: Vec<usize> = Vec::new();
    let n = song.verses.len();
    let mut i: usize = 0;
    proof {
        assert(nats(sizes@).to_set() =~= song_indents(before.subrange(0, 0)).to_set());
    }
    while i < n
        invariant
            n == song.verses@.len(),
            i <= n,
            *song == *old(song),
            before == verses_view(song.verses@),
            increasing(nats(sizes@)),
            nats(sizes@).to_set() == song_indents(before.subrange(0, i as int)).to_set(),
        decreases n - i,
    {
        let ghost seen = song_indents(before.subrange(0, i as int));
        proof {
            assert(before.subrange(0, i + 1).drop_last() =~= before.subrange(0, i as int));
            assert(before.subrange(0, i + 1).last() == song.verses@[i as int]@);
        }
        match verse_lines(&song.verses[i]) {
            Some(lines) => {
                note_lines(lines, &mut sizes);
                proof {
                    let more = line_indents(lines_view(lines@));
                    seq_to_set_distributes_over_add(seen, more);
                }
            },
            None => {
                proof {
                    assert(seen + Seq::<nat>::empty() =~= seen);
                }
            },
        }
        i += 1;
    }
    let ghost among = indent_set(before);
    proof {
        assert(before.subrange(0, n as int) =~= before);
    }
    let mut i: usize = 0;
    while i < n
        invariant
            n == song.verses@.len(),
            n == before.len(),
            i <= n,
            song.meta == old(song).meta,
            before == verses_view(old(song).verses@),
            among == indent_set(before),
            increasing(nats(sizes@)),
            nats(sizes@).to_set() == among,
            forall|k: int|
                0 <= k < i ==> (#[trigger] song.verses@[k])@ == reindent_verse(before[k], among),
            forall|k: int| i <= k < n ==> song.verses@[k] == old(song).verses@[k],
        decreases n - i,
    {
        proof {
            assert forall|j: int| 0 <= j < verse_indents(before[i as int]).len() implies nats(
                sizes@,
            ).contains(#[trigger] verse_indents(before[i as int])[j]) by {
                lemma_indent_occurs(before, i as int, j);
            }
        }
        reindent_in_verse(&mut song.verses[i], &sizes);
        i += 1;
    }
    proof {
        assert(verses_view(song.verses@) =~= reindent_verses(before, among));
    }
}

/// Replaces the indent of each line of a verse by its place in the increasing list
/// `sizes`.
fn reindent_in_verse(verse: &mut Verse, sizes: &Vec<usize>)
    requires
        increasing(nats(sizes@)),
        forall|j: int|
            0 <= j < verse_indents(old(verse)@).len() ==> nats(sizes@).contains(
                #[trigger] verse_indents(old(verse)@)[j],
            ),
    ensures
        final(verse)@ == reindent_verse(old(verse)@, nats(sizes@).to_set()),
{
    match verse_lines_mut(verse) {
        Some(lines) => {
            assert forall|j: int| 0 <= j < lines@.len() implies nats(sizes@).contains(
                (#[trigger] lines@[j]).indent as nat,
            ) by {
                assert(verse_indents(old(verse)@)[j] == lines@[j].indent as nat);
            }
            reindent(lines, sizes);
        },
        None => {},
    }
}

/// A finite set of numbers that is not empty has a greatest member.
pub proof fn lemma_greatest(s: Set<nat>) -> (m: nat)
    requires
        s.finite(),
        s.len() > 0,
    ensures
        s.contains(m),
        forall|x: nat| s.contains(x) ==> x <= m,
    decreases s.len(),
{
    let a = s.choose();
    let rest = s.remove(a);
    if rest.len() == 0 {
        rest.lemma_len0_is_empty();
        assert forall|x: nat| s.contains(x) implies x <= a by {
            if x != a {
                assert(rest.contains(x));
            }
        }
        a
    } else {
        let b = lemma_greatest(rest);
        let m = if a <= b {
            b
        } else {
            a
        };
        assert forall|x: nat| s.contains(x) implies x <= m by {
            if x != a {
                assert(rest.contains(x));
            }
        }
        m
    }
}

/// The members of a finite set of numbers, in increasing order.
pub proof fn lemma_in_order(s: Set<nat>) -> (q: Seq<nat>)
    requires
        s.finite(),
    ensures
        increasing(q),
        q.to_set() == s,
        q.len() == s.len(),
    decreases s.len(),
{
    if s.len() == 0 {
        s.lemma_len0_is_empty();
        let q = Seq::<nat>::empty();
        assert(q.to_set() =~= s);
        q
    } else {
        let m = lemma_greatest(s);
        let rest = s.remove(m);
        let head = lemma_in_order(rest);
        let q = head.push(m);
        assert forall|i: int, j: int| 0 <= i < j < q.len() implies q[i] < q[j] by {
            assert(head.contains(q[i]));
            assert(rest.contains(q[i]));
            if j < head.len() {
                assert(head[i] < head[j]);
            }
        }
        head.lemma_push_to_set_commute(m);
        assert(rest.insert(m) =~= s);
        q
    }
}

/// Among the members of a finite set, rank keeps the order and stays below the number of
/// members.
pub proof fn lemma_rank_orders(s: Set<nat>, a: nat, b: nat)
    requires
        s.finite(),
        s.contains(a),
        s.contains(b),
    ensures
        rank(a, s) < s.len(),
        (a < b) == (rank(a, s) < rank(b, s)),
        (a == b) == (rank(a, s) == rank(b, s)),
{
    let q = lemma_in_order(s);
    let i = choose|i: int| 0 <= i < q.len() && q[i] == a;
    let j = choose|j: int| 0 <= j < q.len() && q[j] == b;
    lemma_rank_is_index(q, i);
    lemma_rank_is_index(q, j);
    if i < j {
        assert(q[i] < q[j]);
    }
    if j < i {
        assert(q[j] < q[i]);
    }
}

/// Every number below the number of members is the rank of a member.
pub proof fn lemma_rank_reaches(s: Set<nat>, r: nat) -> (x: nat)
    requires
        s.finite(),
        r < s.len(),
    ensures
        s.contains(x),
        rank(x, s) == r,
{
    let q = lemma_in_order(s);
    lemma_rank_is_index(q, r as int);
    assert(q.contains(q[r as int]));
    q[r as int]
}

/// Among the numbers below `k`, the rank of each is the number itself.
pub proof fn lemma_rank_below(k: nat, r: nat)
    requires
        r < k,
    ensures
        rank(r, Set::new(|x: nat| x < k)) == r,
{
    let q = Seq::new(k, |i: int| i as nat);
    assert(increasing(q));
    assert forall|x: nat| q.to_set().contains(x) <==> x < k by {
        if x < k {
            assert(q[x as int] == x);
            assert(q.contains(x));
        }
    }
    assert(q.to_set() =~= Set::new(|x: nat| x < k));
    lemma_rank_is_index(q, r as int);
}

/// The indents of reindented verses are the ranks of the indents they had.
pub proof fn lemma_reindented_indents(verses: Seq<VerseView>, among: Set<nat>)
    ensures
        song_indents(reindent_verses(verses, among)) == song_indents(verses).map_values(
            |v: nat| rank(v, among),
        ),
    decreases verses.len(),
{
    let f = |v: nat| rank(v, among);
    let after = reindent_verses(verses, among);
    if verses.len() == 0 {
        assert(song_indents(after) =~= song_indents(verses).map_values(f));
    } else {
        lemma_reindented_indents(verses.drop_last(), among);
        assert(after.drop_last() =~= reindent_verses(verses.drop_last(), among));
        assert(after.last() == reindent_verse(verses.last(), among));
        assert(verse_indents(after.last()) =~= verse_indents(verses.last()).map_values(f));
        assert(song_indents(after) =~= song_indents(verses).map_values(f));
    }
}

/// After normalization the indents that occur are exactly the numbers below `k`, where
/// `k` is the number of distinct indents that occurred before.
pub proof fn law_normalized_indents_dense(song: SongView)
    ensures
        indent_set(normalized(song).verses) == Set::new(
            |r: nat| r < indent_set(song.verses).len(),
        ),
{
    let among = indent_set(song.verses);
    let k = among.len();
    let before = song_indents(song.verses);
    let after = song_indents(normalized(song).verses);
    let f = |v: nat| rank(v, among);
    vstd::seq_lib::seq_to_set_is_finite(before);
    lemma_reindented_indents(song.verses, among);
    assert forall|r: nat| after.to_set().contains(r) <==> r < k by {
        if after.to_set().contains(r) {
            let i = choose|i: int| 0 <= i < after.len() && after[i] == r;
            assert(before.contains(before[i]));
            lemma_rank_orders(among, before[i], before[i]);
        }
        if r < k {
            let x = lemma_rank_reaches(among, r);
            let i = choose|i: int| 0 <= i < before.len() && before[i] == x;
            assert(after[i] == r);
            assert(after.contains(r));
        }
    }
    assert(after.to_set() =~= Set::new(|r: nat| r < k));
}

/// Normalization keeps the order of indents: of two indents that occur in the song, the
/// smaller gets the smaller ordinal, and equal ones the same.
pub proof fn law_normalized_indents_monotonic(song: SongView, a: nat, b: nat)
    requires
        indent_set(song.verses).contains(a),
        indent_set(song.verses).contains(b),
    ensures
        (a < b) == (rank(a, indent_set(song.verses)) < rank(b, indent_set(song.verses))),
        (a == b) == (rank(a, indent_set(song.verses)) == rank(b, indent_set(song.verses))),
{
    vstd::seq_lib::seq_to_set_is_finite(song_indents(song.verses));
    lemma_rank_orders(indent_set(song.verses), a, b);
}

/// Normalizing a normalized song changes nothing.
pub proof fn law_normalize_idempotent(song: SongView)
    ensures
        normalized(normalized(song)) == normalized(song),
{
    let among = indent_set(song.verses);
    let once = normalized(song);
    let again = indent_set(once.verses);
    let twice = normalized(once);
    let k = among.len();
    law_normalized_indents_dense(song);
    assert(again == Set::new(|r: nat| r < k));
    assert forall|i: int| 0 <= i < once.verses.len() implies reindent_verse(
        #[trigger] once.verses[i],
        again,
    ) == once.verses[i] by {
        let v = once.verses[i];
        if let Some(lines) = v.lines() {
            assert forall|j: int| 0 <= j < lines.len() implies reindent_line(
                #[trigger] lines[j],
                again,
            ) == lines[j] by {
                assert(verse_indents(v)[j] == lines[j].indent);
                lemma_indent_occurs(once.verses, i, j);
                lemma_rank_below(k, lines[j].indent);
            }
            assert(reindent_lines(lines, again) =~= lines);
        }
    }
    assert(twice.verses =~= once.verses);
}

/// Normalization keeps a song well formed.
pub proof fn lemma_normalized_well_formed(song: SongView)
    requires
        song.well_formed(),
    ensures
        normalized(song).well_formed(),
{
    let after = normalized(song);
    let among = indent_set(song.verses);
    assert forall|i: int| 0 <= i < after.verses.len() implies (#[trigger] after.verses[i])
        .well_formed() by {
        let v = song.verses[i];
        assert(v.well_formed());
        assert(after.verses[i] == reindent_verse(v, among));
        if let Some(lines) = v.lines() {
            let out = reindent_lines(lines, among);
            assert(after.verses[i].lines() == Some(out));
            assert forall|j: int| 0 <= j < out.len() implies (#[trigger] out[j]).well_formed() by {
                assert(lines[j].well_formed());
            }
        }
    }
}

} // verus!
