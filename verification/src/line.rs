//! One line of the grid: a row or a column, read from the edge that the
//! tiles are pulled toward.
//!
//! Position zero of a line is the cell at that edge. A pull packs the
//! non-empty cells toward position zero and merges equal neighbours, each
//! tile at most once.

use vstd::prelude::*;
use crate::tile::{lemma_tile_equality, values, Tile};

verus! {

/// The non-empty cells of `s` from position `from` on, in their order.
pub open spec fn compact_from(s: Seq<nat>, from: int) -> Seq<nat>
    decreases s.len() - from,
{
    if from < 0 || from >= s.len() {
        Seq::empty()
    } else if s[from] == 0 {
        compact_from(s, from + 1)
    } else {
        seq![s[from]] + compact_from(s, from + 1)
    }
}

/// The non-empty cells of `s`, in their order.
pub open spec fn compact(s: Seq<nat>) -> Seq<nat> {
    compact_from(s, 0)
}

/// Merges equal neighbours of a gap-free line, from position zero on. A
/// tile that a merge produced is not merged again.
pub open spec fn merge_pairs(t: Seq<nat>) -> Seq<nat>
    decreases t.len(),
{
    if t.len() == 0 {
        t
    } else if t.len() >= 2 && t[0] == t[1] {
        seq![t[0] + t[1]] + merge_pairs(t.skip(2))
    } else {
        seq![t[0]] + merge_pairs(t.skip(1))
    }
}

/// The sum of the tiles that `merge_pairs` produces by merging.
pub open spec fn pair_gain(t: Seq<nat>) -> nat
    decreases t.len(),
{
    if t.len() == 0 {
        0
    } else if t.len() >= 2 && t[0] == t[1] {
        t[0] + t[1] + pair_gain(t.skip(2))
    } else {
        pair_gain(t.skip(1))
    }
}

/// The tiles of a line after a pull, without the empty cells behind them.
pub open spec fn packed(s: Seq<nat>) -> Seq<nat> {
    merge_pairs(compact(s))
}

/// The line after a pull toward position zero: the packed tiles, then
/// empty cells up to the line's length.
pub open spec fn slide(s: Seq<nat>) -> Seq<nat> {
    Seq::new(
        s.len(),
        |p: int|
            if p < packed(s).len() {
                packed(s)[p]
            } else {
                0
            },
    )
}

/// What a pull of the line adds to the score: the sum of the merged tiles.
pub open spec fn slide_gain(s: Seq<nat>) -> nat {
    pair_gain(compact(s))
}

/// Whether every tile of the pulled line can be held in a cell.
pub open spec fn slide_fits(s: Seq<nat>) -> bool {
    forall|p: int| 0 <= p < s.len() ==> #[trigger] slide(s)[p] <= u16::MAX
}

/// Whether the line has no empty cell and no two equal neighbours.
pub open spec fn settled(s: Seq<nat>) -> bool {
    &&& forall|p: int| 0 <= p < s.len() ==> #[trigger] s[p] != 0
    &&& forall|p: int| 0 <= p < s.len() - 1 ==> #[trigger] s[p] != s[p + 1]
}

/// The positions from `from` on at which `s` holds a tile.
pub open spec fn occupied_from(s: Seq<nat>, from: int) -> Set<int> {
    Set::new(|p: int| from <= p < s.len() && s[p] != 0)
}

/// Whether `value` is what a tile can come to show in a game: a two, or
/// the double of such a value.
pub open spec fn doubling(value: nat) -> bool
    decreases value,
{
    value == 2 || (value > 2 && value % 2 == 0 && doubling(value / 2))
}

/// Whether every cell is empty or shows a value that a tile can come to
/// show in a game.
pub open spec fn tile_values(s: Seq<nat>) -> bool {
    forall|p: int| 0 <= p < s.len() ==> s[p] == 0 || doubling(#[trigger] s[p])
}

/// What is held back while a line is read from the pulled edge: a tile
/// that may still merge with the next one, or nothing.
spec fn held_tile(held: nat) -> Seq<nat> {
    if held == 0 {
        Seq::empty()
    } else {
        seq![held]
    }
}

/// What a pull did to a line.
#[derive(Debug, Clone, Copy, PartialEq, Eq, Structural)]
pub struct Pull {
    /// The sum of the tiles that the pull produced by merging.
    pub gain: usize,
    /// Whether any tile moved or merged.
    pub changed: bool,
}

/// The position of the nearest non-empty cell behind `cur`, if there is one.
fn next_tile(line: &Vec<Tile>, cur: usize) -> (found: Option<usize>)
    requires
        cur < line.len(),
    ensures
        match found {
            Some(next) => {
                &&& cur < next < line.len()
                &&& line[next as int]@ != 0
                &&& forall|p: int| cur < p < next ==> line[p]@ == 0
            },
            None => forall|p: int| cur < p < line.len() ==> line[p]@ == 0,
        },
{
    let mut next: usize = cur + 1;
    while next < line.len()
        invariant
            cur < next <= line.len(),
            forall|p: int| cur < p < next ==> line[p]@ == 0,
        decreases line.len() - next,
    {
        if !line[next].is_empty() {
            return Some(next);
        }
        next = next + 1;
    }
    None
}

/// Pulls the tiles of `line` toward position zero, in place.
///
/// Each position is visited from the pulled edge on. An empty position takes
/// the nearest tile behind it and is looked at again; a tile that equals the
/// nearest tile behind it absorbs that tile, once. The line is reported as
/// changed exactly when it differs from what it was.
pub fn slide_line(line: &mut Vec<Tile>) -> (pull: Pull)
    requires
        slide_fits(values(old(line)@)),
        slide_gain(values(old(line)@)) <= usize::MAX,
    ensures
        final(line).len() == old(line).len(),
        values(final(line)@) == slide(values(old(line)@)),
        pull.gain == slide_gain(values(old(line)@)),
        pull.changed == (slide(values(old(line)@)) != values(old(line)@)),
{
    let n = line.len();
    let ghost before = values(line@);
    let ghost goal = packed(before);
    let mut cur: usize = 0;
    let mut gain: usize = 0;
    let mut changed = false;
    let mut more = true;
    proof {
        lemma_packed_len(before);
        assert(values(line@).take(0) + goal =~= goal);
    }
    while more && cur < n
        invariant
            line.len() == n,
            before.len() == n,
            cur <= n,
            goal == packed(before),
            goal.len() <= n,
            slide_fits(before),
            slide_gain(before) <= usize::MAX,
            goal == values(line@).take(cur as int) + merge_pairs(
                compact_from(values(line@), cur as int),
            ),
            slide_gain(before) == gain + pair_gain(compact_from(values(line@), cur as int)),
            !changed ==> values(line@) == before,
            changed ==> slide(before) != before,
            !more ==> forall|p: int| cur < p < n ==> line[p]@ == 0,
        decreases
            n - cur,
            (if more {
                1int
            } else {
                0int
            }) + (if cur < n && line[cur as int]@ == 0 {
                1int
            } else {
                0int
            }),
    {
        let ghost c = values(line@);
        match next_tile(line, cur) {
            None => {
                more = false;
            },
            Some(next) => {
                let far = line[next];
                proof {
                    lemma_compact_skips_gap(c, cur as int + 1, next as int);
                    lemma_compact_bounds(c, next as int + 1);
                    assert(compact_from(c, next as int) == seq![far@] + compact_from(
                        c,
                        next as int + 1,
                    ));
                }
                if line[cur].is_empty() {
                    line[cur] = far;
                    line[next] = Tile::new(0);
                    proof {
                        let d = values(line@);
                        let tail = compact_from(c, next as int + 1);
                        assert(compact_from(c, cur as int) == seq![far@] + tail) by {
                            assert(compact_from(c, cur as int) == compact_from(c, cur as int + 1));
                            assert(compact_from(c, next as int) == seq![far@] + tail);
                        }
                        assert(compact_from(d, cur as int) == seq![far@] + tail) by {
                            lemma_compact_skips_gap(d, cur as int + 1, next as int + 1);
                            lemma_compact_agrees(c, d, next as int + 1);
                            assert(compact_from(d, cur as int) == seq![d[cur as int]]
                                + compact_from(d, cur as int + 1));
                        }
                        assert(d.take(cur as int) =~= c.take(cur as int));
                        lemma_merge_bounds(seq![far@] + tail);
                        assert(goal[cur as int] != 0) by {
                            let m = merge_pairs(seq![far@] + tail);
                            assert(forall|k: int|
                                0 <= k < (seq![far@] + tail).len() ==> (seq![far@] + tail)[k] != 0);
                            assert(m[0] != 0);
                            assert(goal[cur as int] == m[0]);
                        }
                        assert(slide(before)[cur as int] == goal[cur as int]);
                        if !changed {
                            assert(before[cur as int] == 0);
                        }
                    }
                    changed = true;
                } else {
                    let near = line[cur];
                    let ghost tail = compact_from(c, next as int + 1);
                    proof {
                        lemma_tile_equality(near, far);
                        assert(compact_from(c, cur as int) == seq![near@] + (seq![far@] + tail));
                        lemma_merge_head(near@, seq![far@] + tail);
                        assert((seq![far@] + tail).skip(1) =~= tail);
                    }
                    if near == far {
                        proof {
                            assert(goal[cur as int] == near@ + far@);
                            assert(slide(before)[cur as int] == goal[cur as int]);
                        }
                        let merged = near.merge_with(far);
                        line[cur] = merged;
                        line[next] = Tile::new(0);
                        proof {
                            let d = values(line@);
                            assert(compact_from(d, cur as int + 1) == tail) by {
                                lemma_compact_skips_gap(d, cur as int + 1, next as int + 1);
                                lemma_compact_agrees(c, d, next as int + 1);
                            }
                            assert(d.take(cur as int + 1) =~= c.take(cur as int) + seq![merged@]);
                            assert(goal =~= d.take(cur as int + 1) + merge_pairs(tail));
                            if !changed {
                                assert(before[cur as int] == near@);
                            }
                        }
                        gain = gain + merged.value() as usize;
                        changed = true;
                    } else {
                        proof {
                            assert(c.take(cur as int + 1) =~= c.take(cur as int) + seq![near@]);
                            assert(goal =~= c.take(cur as int + 1) + merge_pairs(
                                seq![far@] + tail,
                            ));
                        }
                    }
                    cur = cur + 1;
                }
            },
        }
    }
    proof {
        let c = values(line@);
        let rest = compact_from(c, cur as int);
        if cur < n {
            lemma_compact_skips_gap(c, cur as int + 1, n as int);
            assert(compact_from(c, n as int) == Seq::<nat>::empty());
            assert(rest.len() <= 1);
        }
        lemma_merge_short(rest);
        assert(c =~= slide(before));
    }
    Pull { gain, changed }
}

/// What a pull of `line` would add to the score, or `None` if the pull
/// would produce a tile or a gain too large to be held.
pub fn pull_gain(line: &Vec<Tile>) -> (gain: Option<usize>)
    ensures
        gain is Some <==> slide_fits(values(line@)) && slide_gain(values(line@)) <= usize::MAX,
        gain matches Some(g) ==> g == slide_gain(values(line@)),
{
    let n = line.len();
    let ghost cells = values(line@);
    let ghost goal = packed(cells);
    let ghost mut done: Seq<nat> = Seq::empty();
    let mut held: u16 = 0;
    let mut gain: usize = 0;
    let mut i: usize = 0;
    proof {
        lemma_packed_len(cells);
        assert(held_tile(0) + compact_from(cells, 0) =~= compact(cells));
        assert(done + goal =~= goal);
    }
    while i < n
        invariant
            line.len() == n,
            cells == values(line@),
            goal == packed(cells),
            goal.len() <= n,
            i <= n,
            goal == done + merge_pairs(held_tile(held as nat) + compact_from(cells, i as int)),
            slide_gain(cells) == gain + pair_gain(
                held_tile(held as nat) + compact_from(cells, i as int),
            ),
            forall|k: int| 0 <= k < done.len() ==> done[k] <= u16::MAX,
        decreases n - i,
    {
        let value = line[i].value();
        let ghost tail = compact_from(cells, i as int + 1);
        if value != 0 {
            proof {
                assert(compact_from(cells, i as int) == seq![value as nat] + tail);
            }
            if held == value {
                proof {
                    assert(held_tile(held as nat) + (seq![value as nat] + tail) =~= seq![
                        held as nat,
                    ] + (seq![value as nat] + tail));
                    lemma_merge_head(held as nat, seq![value as nat] + tail);
                    assert((seq![value as nat] + tail).skip(1) =~= tail);
                    assert(held_tile(0) + tail =~= tail);
                    assert(goal[done.len() as int] == held + value);
                    assert(slide(cells)[done.len() as int] == goal[done.len() as int]);
                }
                if value > u16::MAX / 2 {
                    return None;
                }
                let sum = value + value;
                if gain > usize::MAX - sum as usize {
                    return None;
                }
                gain = gain + sum as usize;
                held = 0;
                proof {
                    let ghost merged = done + seq![sum as nat];
                    assert(goal =~= merged + merge_pairs(held_tile(0) + tail));
                    done = merged;
                }
            } else {
                proof {
                    if held != 0 {
                        assert(held_tile(held as nat) + (seq![value as nat] + tail) =~= seq![
                            held as nat,
                        ] + (seq![value as nat] + tail));
                        lemma_merge_head(held as nat, seq![value as nat] + tail);
                        let ghost kept = done + seq![held as nat];
                        assert(held_tile(value as nat) + tail =~= seq![value as nat] + tail);
                        assert(goal =~= kept + merge_pairs(held_tile(value as nat) + tail));
                        done = kept;
                    } else {
                        assert(held_tile(0) + (seq![value as nat] + tail) =~= held_tile(
                            value as nat,
                        ) + tail);
                    }
                }
                held = value;
            }
        }
        i = i + 1;
    }
    proof {
        assert(held_tile(held as nat) + compact_from(cells, n as int) =~= held_tile(held as nat));
        lemma_merge_short(held_tile(held as nat));
        assert(goal == done + held_tile(held as nat));
    }
    Some(gain)
}

/// A pull loses no tile: what is packed is no longer than the line.
pub proof fn lemma_packed_len(s: Seq<nat>)
    ensures
        packed(s).len() <= s.len(),
{
    lemma_compact_bounds(s, 0);
    lemma_merge_bounds(compact(s));
}

/// A pull leaves a line without empty cells and without equal neighbours as
/// it is, and adds nothing to the score.
pub proof fn lemma_settled_line_stays(s: Seq<nat>)
    requires
        settled(s),
    ensures
        slide(s) == s,
        slide_gain(s) == 0,
{
    lemma_compact_of_packed(s, s.len() as int, 0);
    assert(s.subrange(0, s.len() as int) =~= s);
    lemma_merge_distinct(s);
    assert(slide(s) =~= s);
}

/// A pull that leaves every cell of a line as it was adds nothing to the
/// score.
pub proof fn lemma_fixed_line_no_gain(s: Seq<nat>)
    requires
        slide(s) == s,
    ensures
        slide_gain(s) == 0,
{
    let tiles = packed(s);
    lemma_packed_len(s);
    lemma_compact_bounds(s, 0);
    lemma_merge_bounds(compact(s));
    assert forall|p: int| 0 <= p < tiles.len() implies s[p] != 0 by {
        assert(slide(s)[p] == tiles[p]);
    }
    assert forall|p: int| tiles.len() <= p < s.len() implies s[p] == 0 by {
        assert(slide(s)[p] == 0);
    }
    lemma_compact_of_packed(s, tiles.len() as int, 0);
    lemma_merge_keeps_len(compact(s));
}

/// A pull changes a line without empty cells in which two neighbours are
/// equal.
pub proof fn lemma_equal_neighbours_merge(s: Seq<nat>, at: int)
    requires
        forall|p: int| 0 <= p < s.len() ==> s[p] != 0,
        0 <= at < s.len() - 1,
        s[at] == s[at + 1],
    ensures
        slide(s) != s,
{
    lemma_compact_of_packed(s, s.len() as int, 0);
    assert(s.subrange(0, s.len() as int) =~= s);
    lemma_merge_shortens(s, at);
    assert(slide(s)[s.len() - 1] == 0);
}

/// A pull that changes a line leaves its last cell empty.
pub proof fn lemma_pull_leaves_room(s: Seq<nat>)
    requires
        slide(s) != s,
    ensures
        s.len() > 0,
        slide(s)[s.len() - 1] == 0,
{
    lemma_packed_len(s);
    lemma_compact_bounds(s, 0);
    lemma_merge_bounds(compact(s));
    if packed(s).len() == s.len() {
        lemma_compact_keeps_all(s, 0);
        lemma_compact_of_packed(s, s.len() as int, 0);
        assert(s.subrange(0, s.len() as int) =~= s);
        lemma_merge_keeps_len(s);
        assert(slide(s) =~= s);
    }
    if s.len() == 0 {
        assert(slide(s) =~= s);
    }
}

/// After a pull no empty cell stands between a tile and the pulled edge.
pub proof fn lemma_pull_leaves_no_gap(s: Seq<nat>)
    ensures
        forall|p: int, q: int|
            0 <= p < q < s.len() && #[trigger] slide(s)[q] != 0 ==> #[trigger] slide(s)[p] != 0,
{
    lemma_compact_bounds(s, 0);
    lemma_merge_bounds(compact(s));
}

/// Packing keeps one tile for each position that holds one.
pub proof fn lemma_occupied_count(s: Seq<nat>, from: int)
    requires
        0 <= from <= s.len(),
    ensures
        occupied_from(s, from).finite(),
        occupied_from(s, from).len() == compact_from(s, from).len(),
    decreases s.len() - from,
{
    if from == s.len() {
        assert(occupied_from(s, from) =~= Set::<int>::empty());
    } else {
        lemma_occupied_count(s, from + 1);
        if s[from] == 0 {
            assert(occupied_from(s, from) =~= occupied_from(s, from + 1));
        } else {
            assert(occupied_from(s, from) =~= occupied_from(s, from + 1).insert(from));
        }
    }
}

/// A pull never adds a tile to a line, and it keeps the number of tiles
/// exactly when it merges none, that is, when it has no gain.
pub proof fn lemma_pull_tile_count(s: Seq<nat>)
    ensures
        compact(slide(s)) == packed(s),
        packed(s).len() <= compact(s).len(),
        (packed(s).len() == compact(s).len()) == (slide_gain(s) == 0),
{
    lemma_packed_len(s);
    lemma_compact_bounds(s, 0);
    lemma_merge_bounds(compact(s));
    lemma_compact_of_packed(slide(s), packed(s).len() as int, 0);
    assert(slide(s).subrange(0, packed(s).len() as int) =~= packed(s));
    if packed(s).len() == compact(s).len() {
        lemma_merge_keeps_len(compact(s));
    }
    if slide_gain(s) == 0 {
        lemma_no_gain_keeps_len(compact(s));
    }
}

/// A pull of a line of twos and their doubles leaves twos and their
/// doubles.
pub proof fn lemma_pull_keeps_values(s: Seq<nat>)
    requires
        tile_values(s),
    ensures
        tile_values(slide(s)),
{
    lemma_compact_keeps_values(s, 0);
    lemma_merge_keeps_values(compact(s));
}

/// Empty cells in front of a position add nothing to what is packed.
proof fn lemma_compact_skips_gap(s: Seq<nat>, from: int, to: int)
    requires
        0 <= from <= to <= s.len(),
        forall|p: int| from <= p < to ==> s[p] == 0,
    ensures
        compact_from(s, from) == compact_from(s, to),
    decreases to - from,
{
    if from < to {
        lemma_compact_skips_gap(s, from + 1, to);
    }
}

/// Two lines that agree from a position on pack to the same tiles there.
proof fn lemma_compact_agrees(s: Seq<nat>, t: Seq<nat>, from: int)
    requires
        s.len() == t.len(),
        0 <= from,
        forall|p: int| from <= p < s.len() ==> s[p] == t[p],
    ensures
        compact_from(s, from) == compact_from(t, from),
    decreases s.len() - from,
{
    if from < s.len() {
        lemma_compact_agrees(s, t, from + 1);
    }
}

/// Packing keeps no more cells than the line has from that position on,
/// and keeps only non-empty ones.
proof fn lemma_compact_bounds(s: Seq<nat>, from: int)
    requires
        0 <= from <= s.len(),
    ensures
        compact_from(s, from).len() <= s.len() - from,
        forall|k: int| 0 <= k < compact_from(s, from).len() ==> compact_from(s, from)[k] != 0,
    decreases s.len() - from,
{
    if from < s.len() {
        lemma_compact_bounds(s, from + 1);
    }
}

/// How `merge_pairs` treats a line whose first tile is `head`.
proof fn lemma_merge_head(head: nat, rest: Seq<nat>)
    ensures
        rest.len() > 0 && rest[0] == head ==> merge_pairs(seq![head] + rest) == seq![head + head]
            + merge_pairs(rest.skip(1)),
        !(rest.len() > 0 && rest[0] == head) ==> merge_pairs(seq![head] + rest) == seq![head]
            + merge_pairs(rest),
        rest.len() > 0 && rest[0] == head ==> pair_gain(seq![head] + rest) == head + head
            + pair_gain(rest.skip(1)),
        !(rest.len() > 0 && rest[0] == head) ==> pair_gain(seq![head] + rest) == pair_gain(rest),
{
    let t = seq![head] + rest;
    assert(t.skip(1) =~= rest);
    if rest.len() > 0 {
        assert(t.skip(2) =~= rest.skip(1));
    }
}

/// Merging never lengthens a line, and turns non-empty tiles into non-empty
/// tiles.
proof fn lemma_merge_bounds(t: Seq<nat>)
    ensures
        merge_pairs(t).len() <= t.len(),
        t.len() > 0 ==> merge_pairs(t).len() > 0,
        (forall|k: int| 0 <= k < t.len() ==> t[k] != 0) ==> (forall|k: int|
            0 <= k < merge_pairs(t).len() ==> merge_pairs(t)[k] != 0),
    decreases t.len(),
{
    if t.len() == 0 {
    } else if t.len() >= 2 && t[0] == t[1] {
        lemma_merge_bounds(t.skip(2));
    } else {
        lemma_merge_bounds(t.skip(1));
    }
}

/// A line of at most one tile has nothing to merge.
proof fn lemma_merge_short(t: Seq<nat>)
    requires
        t.len() <= 1,
    ensures
        merge_pairs(t) == t,
        pair_gain(t) == 0,
{
    if t.len() == 1 {
        assert(merge_pairs(t.skip(1)) == t.skip(1));
        assert(pair_gain(t.skip(1)) == 0);
        assert(seq![t[0]] + t.skip(1) =~= t);
    }
}

/// A line whose tiles all stand at the pulled edge, with no gap between
/// them, packs to those tiles.
proof fn lemma_compact_of_packed(s: Seq<nat>, tiles: int, from: int)
    requires
        0 <= from <= tiles <= s.len(),
        forall|p: int| 0 <= p < tiles ==> s[p] != 0,
        forall|p: int| tiles <= p < s.len() ==> s[p] == 0,
    ensures
        compact_from(s, from) == s.subrange(from, tiles),
    decreases tiles - from,
{
    if from < tiles {
        lemma_compact_of_packed(s, tiles, from + 1);
        assert(seq![s[from]] + s.subrange(from + 1, tiles) =~= s.subrange(from, tiles));
    } else {
        lemma_compact_skips_gap(s, tiles, s.len() as int);
        assert(s.subrange(from, tiles) =~= Seq::<nat>::empty());
    }
}

/// Where merging keeps the length of a line, it merged nothing.
proof fn lemma_merge_keeps_len(t: Seq<nat>)
    requires
        merge_pairs(t).len() == t.len(),
    ensures
        merge_pairs(t) == t,
        pair_gain(t) == 0,
    decreases t.len(),
{
    if t.len() == 0 {
    } else if t.len() >= 2 && t[0] == t[1] {
        lemma_merge_bounds(t.skip(2));
    } else {
        lemma_merge_bounds(t.skip(1));
        lemma_merge_keeps_len(t.skip(1));
        assert(seq![t[0]] + t.skip(1) =~= t);
    }
}

/// A line without equal neighbours has nothing to merge.
proof fn lemma_merge_distinct(t: Seq<nat>)
    requires
        forall|p: int| 0 <= p < t.len() - 1 ==> #[trigger] t[p] != t[p + 1],
    ensures
        merge_pairs(t) == t,
        pair_gain(t) == 0,
    decreases t.len(),
{
    if t.len() > 0 {
        assert(t.len() >= 2 ==> t[0int] != t[0int + 1]);
        let rest = t.skip(1);
        assert forall|p: int| 0 <= p < rest.len() - 1 implies #[trigger] rest[p] != rest[p + 1] by {
            assert(t[p + 1] != t[(p + 1) + 1]);
        }
        lemma_merge_distinct(rest);
        assert(seq![t[0]] + rest =~= t);
    }
}

/// Merging shortens a line in which two neighbours are equal.
proof fn lemma_merge_shortens(t: Seq<nat>, at: int)
    requires
        0 <= at < t.len() - 1,
        t[at] == t[at + 1],
    ensures
        merge_pairs(t).len() < t.len(),
    decreases t.len(),
{
    if t[0] == t[1] {
        lemma_merge_bounds(t.skip(2));
    } else {
        let rest = t.skip(1);
        assert(rest[at - 1] == rest[at - 1 + 1]);
        lemma_merge_shortens(rest, at - 1);
    }
}

/// Where packing keeps every cell from a position on, none of them is
/// empty.
proof fn lemma_compact_keeps_all(s: Seq<nat>, from: int)
    requires
        0 <= from <= s.len(),
        compact_from(s, from).len() == s.len() - from,
    ensures
        forall|p: int| from <= p < s.len() ==> s[p] != 0,
    decreases s.len() - from,
{
    if from < s.len() {
        lemma_compact_bounds(s, from + 1);
        lemma_compact_keeps_all(s, from + 1);
    }
}

/// Merging keeps the length of a line of tiles when it has no gain.
proof fn lemma_no_gain_keeps_len(t: Seq<nat>)
    requires
        forall|k: int| 0 <= k < t.len() ==> t[k] != 0,
        pair_gain(t) == 0,
    ensures
        merge_pairs(t).len() == t.len(),
    decreases t.len(),
{
    if t.len() == 0 {
    } else if t.len() >= 2 && t[0] == t[1] {
    } else {
        lemma_no_gain_keeps_len(t.skip(1));
    }
}

/// Packing keeps the values of the tiles.
proof fn lemma_compact_keeps_values(s: Seq<nat>, from: int)
    requires
        0 <= from <= s.len(),
        tile_values(s),
    ensures
        forall|k: int|
            0 <= k < compact_from(s, from).len() ==> doubling(#[trigger] compact_from(s, from)[k]),
    decreases s.len() - from,
{
    if from < s.len() {
        lemma_compact_keeps_values(s, from + 1);
        assert(s[from] == 0 || doubling(s[from]));
        let kept = compact_from(s, from);
        let rest = compact_from(s, from + 1);
        assert forall|k: int| 0 <= k < kept.len() implies doubling(#[trigger] kept[k]) by {
            if s[from] != 0 && k > 0 {
                assert(kept[k] == rest[k - 1]);
            }
        }
    }
}

/// Merging makes tiles of such values into tiles of such values.
proof fn lemma_merge_keeps_values(t: Seq<nat>)
    requires
        forall|k: int| 0 <= k < t.len() ==> doubling(#[trigger] t[k]),
    ensures
        forall|k: int| 0 <= k < merge_pairs(t).len() ==> doubling(#[trigger] merge_pairs(t)[k]),
    decreases t.len(),
{
    let merged = merge_pairs(t);
    if t.len() == 0 {
    } else if t.len() >= 2 && t[0] == t[1] {
        let rest = merge_pairs(t.skip(2));
        assert forall|k: int| 0 <= k < t.skip(2).len() implies doubling(#[trigger] t.skip(2)[k]) by {
            assert(t.skip(2)[k] == t[k + 2]);
        }
        lemma_merge_keeps_values(t.skip(2));
        assert(doubling(t[0]));
        assert((t[0] + t[1]) / 2 == t[0]);
        assert(doubling(t[0] + t[1]));
        assert forall|k: int| 0 <= k < merged.len() implies doubling(#[trigger] merged[k]) by {
            if k > 0 {
                assert(merged[k] == rest[k - 1]);
            }
        }
    } else {
        let rest = merge_pairs(t.skip(1));
        assert forall|k: int| 0 <= k < t.skip(1).len() implies doubling(#[trigger] t.skip(1)[k]) by {
            assert(t.skip(1)[k] == t[k + 1]);
        }
        lemma_merge_keeps_values(t.skip(1));
        assert(doubling(t[0]));
        assert forall|k: int| 0 <= k < merged.len() implies doubling(#[trigger] merged[k]) by {
            if k > 0 {
                assert(merged[k] == rest[k - 1]);
            }
        }
    }
}

} // verus!
