//! Weighted Levenshtein distance over grapheme clusters.

use crate::matrix::{grid_rows, DistanceMatrix};
use crate::segmentation::{grapheme_clusters, graphemes, texts};
use crate::text::same_text;
use vstd::prelude::*;

verus! {

/// Cost of inserting the cluster `g` into the source.
pub open spec fn insertion_cost_of(g: Seq<char>) -> int {
    1
}

/// Cost of deleting the cluster `g` from the source.
pub open spec fn deletion_cost_of(g: Seq<char>) -> int {
    1
}

/// Cost of replacing the cluster `a` by the cluster `b`.
pub open spec fn substitution_cost_of(a: Seq<char>, b: Seq<char>) -> int {
    if a == b {
        0
    } else {
        2
    }
}

/// The least of three costs.
pub open spec fn min3(x: int, y: int, z: int) -> int {
    if x <= y && x <= z {
        x
    } else if y <= z {
        y
    } else {
        z
    }
}

/// The least total cost of deletions, substitutions and insertions that turn
/// `source` into `target`, both given as sequences of grapheme clusters.
pub open spec fn edit_distance(source: Seq<Seq<char>>, target: Seq<Seq<char>>) -> int
    decreases source.len() + target.len(),
{
    if source.len() == 0 && target.len() == 0 {
        0
    } else if target.len() == 0 {
        edit_distance(source.drop_last(), target) + deletion_cost_of(source.last())
    } else if source.len() == 0 {
        edit_distance(source, target.drop_last()) + insertion_cost_of(target.last())
    } else {
        min3(
            edit_distance(source.drop_last(), target) + deletion_cost_of(source.last()),
            edit_distance(source.drop_last(), target.drop_last()) + substitution_cost_of(
                source.last(),
                target.last(),
            ),
            edit_distance(source, target.drop_last()) + insertion_cost_of(target.last()),
        )
    }
}

/// The distance is never negative and never exceeds the cost of deleting all
/// of `source` and inserting all of `target`.
pub proof fn lemma_edit_distance_bounds(source: Seq<Seq<char>>, target: Seq<Seq<char>>)
    ensures
        0 <= edit_distance(source, target) <= source.len() + target.len(),
    decreases source.len() + target.len(),
{
    if source.len() == 0 && target.len() == 0 {
    } else if target.len() == 0 {
        lemma_edit_distance_bounds(source.drop_last(), target);
    } else if source.len() == 0 {
        lemma_edit_distance_bounds(source, target.drop_last());
    } else {
        lemma_edit_distance_bounds(source.drop_last(), target);
        lemma_edit_distance_bounds(source.drop_last(), target.drop_last());
        lemma_edit_distance_bounds(source, target.drop_last());
    }
}

/// With nothing on one side, the distance is the length of the other side.
pub proof fn lemma_edit_distance_empty(clusters: Seq<Seq<char>>)
    ensures
        edit_distance(Seq::empty(), clusters) == clusters.len(),
        edit_distance(clusters, Seq::empty()) == clusters.len(),
    decreases clusters.len(),
{
    if clusters.len() > 0 {
        lemma_edit_distance_empty(clusters.drop_last());
    }
}

/// The distance is at least the difference of the two lengths.
pub proof fn lemma_edit_distance_length_gap(source: Seq<Seq<char>>, target: Seq<Seq<char>>)
    ensures
        source.len() - target.len() <= edit_distance(source, target),
        target.len() - source.len() <= edit_distance(source, target),
    decreases source.len() + target.len(),
{
    if source.len() == 0 && target.len() == 0 {
    } else if target.len() == 0 {
        lemma_edit_distance_length_gap(source.drop_last(), target);
    } else if source.len() == 0 {
        lemma_edit_distance_length_gap(source, target.drop_last());
    } else {
        lemma_edit_distance_length_gap(source.drop_last(), target);
        lemma_edit_distance_length_gap(source.drop_last(), target.drop_last());
        lemma_edit_distance_length_gap(source, target.drop_last());
    }
}

/// One more cluster at the end of the source costs at most its deletion.
proof fn lemma_delete_last(source: Seq<Seq<char>>, target: Seq<Seq<char>>)
    requires
        source.len() > 0,
    ensures
        edit_distance(source, target) <= edit_distance(source.drop_last(), target) + 1,
{
}

/// One more cluster at the end of the target costs at most its insertion.
proof fn lemma_insert_last(source: Seq<Seq<char>>, target: Seq<Seq<char>>)
    requires
        target.len() > 0,
    ensures
        edit_distance(source, target) <= edit_distance(source, target.drop_last()) + 1,
{
}

/// A sequence of clusters is at distance zero from itself.
pub proof fn lemma_edit_distance_reflexive(clusters: Seq<Seq<char>>)
    ensures
        edit_distance(clusters, clusters) == 0,
    decreases clusters.len(),
{
    if clusters.len() > 0 {
        lemma_edit_distance_reflexive(clusters.drop_last());
        lemma_edit_distance_bounds(clusters, clusters);
    }
}

/// Swapping source and target leaves the distance unchanged: insertion and
/// deletion cost the same, and substitution does not depend on direction.
pub proof fn lemma_edit_distance_symmetric(source: Seq<Seq<char>>, target: Seq<Seq<char>>)
    ensures
        edit_distance(source, target) == edit_distance(target, source),
    decreases source.len() + target.len(),
{
    if source.len() == 0 && target.len() == 0 {
    } else if target.len() == 0 {
        lemma_edit_distance_symmetric(source.drop_last(), target);
    } else if source.len() == 0 {
        lemma_edit_distance_symmetric(source, target.drop_last());
    } else {
        lemma_edit_distance_symmetric(source.drop_last(), target);
        lemma_edit_distance_symmetric(source.drop_last(), target.drop_last());
        lemma_edit_distance_symmetric(source, target.drop_last());
    }
}

/// Going from `a` to `c` directly never costs more than going through `b`.
pub proof fn lemma_edit_distance_triangle(a: Seq<Seq<char>>, b: Seq<Seq<char>>, c: Seq<Seq<char>>)
    ensures
        edit_distance(a, c) <= edit_distance(a, b) + edit_distance(b, c),
    decreases a.len() + b.len() + c.len(),
{
    if a.len() == 0 {
        assert(a =~= Seq::empty());
        lemma_edit_distance_empty(b);
        lemma_edit_distance_empty(c);
        lemma_edit_distance_length_gap(b, c);
    } else if c.len() == 0 {
        assert(c =~= Seq::empty());
        lemma_edit_distance_empty(a);
        lemma_edit_distance_empty(b);
        lemma_edit_distance_length_gap(a, b);
    } else if b.len() == 0 {
        assert(b =~= Seq::empty());
        lemma_edit_distance_empty(a);
        lemma_edit_distance_empty(c);
        lemma_edit_distance_bounds(a, c);
    } else {
        let a0 = a.drop_last();
        let b0 = b.drop_last();
        let c0 = c.drop_last();
        let ab = edit_distance(a, b);
        let bc = edit_distance(b, c);
        if ab == edit_distance(a0, b) + 1 {
            // the last cluster of `a` is deleted on the way to `b`
            lemma_edit_distance_triangle(a0, b, c);
            lemma_delete_last(a, c);
        } else if bc == edit_distance(b, c0) + 1 {
            // the last cluster of `c` is inserted on the way from `b`
            lemma_edit_distance_triangle(a, b, c0);
            lemma_insert_last(a, c);
        } else if ab == edit_distance(a, b0) + 1 {
            // the last cluster of `b` is inserted, then deleted or replaced
            if bc == edit_distance(b0, c) + 1 {
                lemma_edit_distance_triangle(a, b0, c);
            } else {
                lemma_edit_distance_triangle(a, b0, c0);
                lemma_insert_last(a, c);
            }
        } else {
            // the last cluster of `a` is replaced by that of `b`
            if bc == edit_distance(b0, c) + 1 {
                lemma_edit_distance_triangle(a0, b0, c);
                lemma_delete_last(a, c);
            } else {
                lemma_edit_distance_triangle(a0, b0, c0);
            }
        }
    }
}

/// The distance between two texts: the edit distance of their grapheme
/// clusters.
pub open spec fn text_distance(source: Seq<char>, target: Seq<char>) -> int {
    edit_distance(grapheme_clusters(source), grapheme_clusters(target))
}

/// Whether the grid for `n` source clusters and `m` target clusters can be
/// built: every cell fits in an `i32`, and the cells fit in memory.
pub open spec fn fits_matrix(n: nat, m: nat) -> bool {
    &&& n + m <= i32::MAX
    &&& (n + 1) * (m + 1) * 4 <= isize::MAX
}

/// In the first `rows` rows of the grid, the first `cols` cells hold the
/// distances between the prefixes of `source` and `target` of those lengths.
pub open spec fn filled(
    grid: Seq<Seq<i32>>,
    source: Seq<Seq<char>>,
    target: Seq<Seq<char>>,
    rows: int,
    cols: int,
) -> bool {
    forall|i: int, j: int|
        0 <= i < rows && 0 <= j < cols ==> #[trigger] grid[i][j] == edit_distance(
            source.take(i),
            target.take(j),
        )
}

/// The grid has `rows` rows of `cols` cells each.
pub open spec fn has_shape(grid: Seq<Seq<i32>>, rows: int, cols: int) -> bool {
    &&& grid.len() == rows
    &&& forall|i: int| 0 <= i < rows ==> (#[trigger] grid[i]).len() == cols
}

/// How the distance between two prefixes follows from the distances between
/// shorter ones.
proof fn lemma_prefix_step(source: Seq<Seq<char>>, target: Seq<Seq<char>>, i: int, j: int)
    requires
        0 <= i <= source.len(),
        0 <= j <= target.len(),
    ensures
        0 <= edit_distance(source.take(i), target.take(j)) <= i + j,
        i > 0 && j == 0 ==> edit_distance(source.take(i), target.take(j)) == edit_distance(
            source.take(i - 1),
            target.take(j),
        ) + deletion_cost_of(source[i - 1]),
        i == 0 && j > 0 ==> edit_distance(source.take(i), target.take(j)) == edit_distance(
            source.take(i),
            target.take(j - 1),
        ) + insertion_cost_of(target[j - 1]),
        i > 0 && j > 0 ==> edit_distance(source.take(i), target.take(j)) == min3(
            edit_distance(source.take(i - 1), target.take(j)) + deletion_cost_of(source[i - 1]),
            edit_distance(source.take(i - 1), target.take(j - 1)) + substitution_cost_of(
                source[i - 1],
                target[j - 1],
            ),
            edit_distance(source.take(i), target.take(j - 1)) + insertion_cost_of(target[j - 1]),
        ),
{
    lemma_edit_distance_bounds(source.take(i), target.take(j));
    if i > 0 {
        assert(source.take(i).drop_last() =~= source.take(i - 1));
    }
    if j > 0 {
        assert(target.take(j).drop_last() =~= target.take(j - 1));
    }
}

/// What it costs to insert the cluster `g`.
pub fn insertion_cost(g: &str) -> (cost: i32)
    ensures
        cost == insertion_cost_of(g@),
{
    1
}

/// What it costs to delete the cluster `g`.
pub fn deletion_cost(g: &str) -> (cost: i32)
    ensures
        cost == deletion_cost_of(g@),
{
    1
}

/// What it costs to put the cluster `b` in place of the cluster `a`: nothing
/// where they are the same.
pub fn substitution_cost(a: &str, b: &str) -> (cost: i32)
    ensures
        cost == substitution_cost_of(a@, b@),
{
    if same_text(a, b) {
        0
    } else {
        2
    }
}

/// The edit distance between two sequences of grapheme clusters, by filling
/// the grid of distances between their prefixes.
pub fn cluster_edit_distance(source: &[&str], target: &[&str]) -> (distance: i32)
    requires
        fits_matrix(source@.len(), target@.len()),
    ensures
        distance == edit_distance(texts(source@), texts(target@)),
{
    let n: usize = source.len();
    let m: usize = target.len();
    let ghost s = texts(source@);
    let ghost t = texts(target@);
    let mut d = DistanceMatrix::zeros(n + 1, m + 1);
    assert(filled(grid_rows(d), s, t, 1, 1)) by {
        assert(s.take(0) =~= Seq::empty());
        assert(t.take(0) =~= Seq::empty());
    }

    let mut i: usize = 1;
    while i <= n
        invariant
            1 <= i <= n + 1,
            n == source@.len(),
            m == target@.len(),
            n + m <= i32::MAX,
            s == texts(source@),
            has_shape(grid_rows(d), n + 1, m + 1),
            filled(grid_rows(d), s, t, i as int, 1),
        decreases n + 1 - i,
    {
        proof {
            lemma_prefix_step(s, t, i as int, 0);
            lemma_prefix_step(s, t, i - 1, 0);
        }
        let above = d.get(i - 1, 0);
        d.set(i, 0, above + deletion_cost(source[i - 1]));
        i += 1;
    }

    let mut j: usize = 1;
    while j <= m
        invariant
            1 <= j <= m + 1,
            n == source@.len(),
            m == target@.len(),
            n + m <= i32::MAX,
            t == texts(target@),
            has_shape(grid_rows(d), n + 1, m + 1),
            filled(grid_rows(d), s, t, n + 1, 1),
            filled(grid_rows(d), s, t, 1, j as int),
        decreases m + 1 - j,
    {
        proof {
            lemma_prefix_step(s, t, 0, j as int);
            lemma_prefix_step(s, t, 0, j - 1);
        }
        let left = d.get(0, j - 1);
        d.set(0, j, left + insertion_cost(target[j - 1]));
        j += 1;
    }

    let mut i: usize = 1;
    while i <= n
        invariant
            1 <= i <= n + 1,
            n == source@.len(),
            m == target@.len(),
            n + m <= i32::MAX,
            s == texts(source@),
            t == texts(target@),
            has_shape(grid_rows(d), n + 1, m + 1),
            filled(grid_rows(d), s, t, n + 1, 1),
            filled(grid_rows(d), s, t, i as int, m + 1),
        decreases n + 1 - i,
    {
        let mut j: usize = 1;
        while j <= m
            invariant
                1 <= i <= n,
                1 <= j <= m + 1,
                n == source@.len(),
                m == target@.len(),
                n + m <= i32::MAX,
                s == texts(source@),
                t == texts(target@),
                has_shape(grid_rows(d), n + 1, m + 1),
                filled(grid_rows(d), s, t, n + 1, 1),
                filled(grid_rows(d), s, t, i as int, m + 1),
                filled(grid_rows(d), s, t, i + 1, j as int),
            decreases m + 1 - j,
        {
            proof {
                lemma_prefix_step(s, t, i as int, j as int);
                lemma_prefix_step(s, t, i - 1, j as int);
                lemma_prefix_step(s, t, i - 1, j - 1);
                lemma_prefix_step(s, t, i as int, j - 1);
            }
            let by_deletion = d.get(i - 1, j) + deletion_cost(source[i - 1]);
            let by_substitution = d.get(i - 1, j - 1) + substitution_cost(
                source[i - 1],
                target[j - 1],
            );
            let by_insertion = d.get(i, j - 1) + insertion_cost(target[j - 1]);
            d.set(i, j, smallest(by_deletion, by_substitution, by_insertion));
            j += 1;
        }
        i += 1;
    }

    assert(s.take(n as int) =~= s);
    assert(t.take(m as int) =~= t);
    d.get(n, m)
}

/// The least of three costs.
fn smallest(x: i32, y: i32, z: i32) -> (least: i32)
    ensures
        least == min3(x as int, y as int, z as int),
{
    if x <= y && x <= z {
        x
    } else if y <= z {
        y
    } else {
        z
    }
}

/// The edit distance between two texts, counted in grapheme clusters: a
/// deletion or an insertion costs 1, a substitution costs 2.
pub fn minimum_edit_distance(source: &str, target: &str) -> (distance: i32)
    requires
        fits_matrix(grapheme_clusters(source@).len(), grapheme_clusters(target@).len()),
    ensures
        distance == text_distance(source@, target@),
{
    let source_graphemes = graphemes(source);
    let target_graphemes = graphemes(target);
    cluster_edit_distance(source_graphemes.as_slice(), target_graphemes.as_slice())
}

/// Whether the grid for `n` source clusters and `m` target clusters can be
/// built.
fn grid_fits(n: usize, m: usize) -> (fits: bool)
    ensures
        fits == fits_matrix(n as nat, m as nat),
{
    if n > 0x7fff_ffff || m > 0x7fff_ffff - n {
        return false;
    }
    match (n + 1).checked_mul(m + 1) {
        Some(cells) => match cells.checked_mul(4) {
            Some(bytes) => bytes <= isize::MAX as usize,
            None => false,
        },
        None => {
            assert((n + 1) * (m + 1) * 4 >= (n + 1) * (m + 1)) by (nonlinear_arith);
            false
        },
    }
}

/// The edit distance between two texts where the grid for it can be built,
/// and nothing where it cannot.
pub fn checked_minimum_edit_distance(source: &str, target: &str) -> (distance: Option<i32>)
    ensures
        match distance {
            Some(d) => {
                &&& fits_matrix(
                    grapheme_clusters(source@).len(),
                    grapheme_clusters(target@).len(),
                )
                &&& d == text_distance(source@, target@)
            },
            None => !fits_matrix(
                grapheme_clusters(source@).len(),
                grapheme_clusters(target@).len(),
            ),
        },
{
    let n = graphemes(source).len();
    let m = graphemes(target).len();
    if grid_fits(n, m) {
        Some(minimum_edit_distance(source, target))
    } else {
        None
    }
}

/// A text is at distance zero from itself.
pub proof fn lemma_distance_to_itself(text: Seq<char>)
    ensures
        text_distance(text, text) == 0,
{
    lemma_edit_distance_reflexive(grapheme_clusters(text));
}

/// The distance from `source` to `target` is the distance from `target` to
/// `source`.
pub proof fn lemma_distance_symmetric(source: Seq<char>, target: Seq<char>)
    ensures
        text_distance(source, target) == text_distance(target, source),
{
    lemma_edit_distance_symmetric(grapheme_clusters(source), grapheme_clusters(target));
}

/// The distance from `a` to `c` is at most the distance from `a` to `b` plus
/// the distance from `b` to `c`.
pub proof fn lemma_distance_triangle(a: Seq<char>, b: Seq<char>, c: Seq<char>)
    ensures
        text_distance(a, c) <= text_distance(a, b) + text_distance(b, c),
{
    lemma_edit_distance_triangle(
        grapheme_clusters(a),
        grapheme_clusters(b),
        grapheme_clusters(c),
    );
}

} // verus!
