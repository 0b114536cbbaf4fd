//! Edit scripts, and the edit distance as the cost of the cheapest script.

use crate::minimum_edit_distance::{
    deletion_cost_of, edit_distance, insertion_cost_of, substitution_cost_of,
};
use vstd::prelude::*;

verus! {

/// One step of an edit script. The steps of a script go through the clusters
/// of source and target in order.
pub enum Edit {
    /// Drops the next cluster of the source.
    Delete,
    /// Puts the next cluster of the target in place of the next cluster of
    /// the source; at no cost where the two are the same.
    Substitute,
    /// Adds the next cluster of the target.
    Insert,
}

/// Whether the steps of `script` use up `source` and `target` exactly, that
/// is, whether the script turns `source` into `target`.
pub open spec fn turns(script: Seq<Edit>, source: Seq<Seq<char>>, target: Seq<Seq<char>>) -> bool
    decreases script.len(),
{
    if script.len() == 0 {
        source.len() == 0 && target.len() == 0
    } else {
        match script.last() {
            Edit::Delete => source.len() > 0 && turns(
                script.drop_last(),
                source.drop_last(),
                target,
            ),
            Edit::Substitute => source.len() > 0 && target.len() > 0 && turns(
                script.drop_last(),
                source.drop_last(),
                target.drop_last(),
            ),
            Edit::Insert => target.len() > 0 && turns(
                script.drop_last(),
                source,
                target.drop_last(),
            ),
        }
    }
}

/// The total cost of the steps of a script that turns `source` into `target`.
pub open spec fn script_cost(
    script: Seq<Edit>,
    source: Seq<Seq<char>>,
    target: Seq<Seq<char>>,
) -> int
    decreases script.len(),
{
    if script.len() == 0 {
        0
    } else {
        match script.last() {
            Edit::Delete => script_cost(script.drop_last(), source.drop_last(), target)
                + deletion_cost_of(source.last()),
            Edit::Substitute => script_cost(
                script.drop_last(),
                source.drop_last(),
                target.drop_last(),
            ) + substitution_cost_of(source.last(), target.last()),
            Edit::Insert => script_cost(script.drop_last(), source, target.drop_last())
                + insertion_cost_of(target.last()),
        }
    }
}

/// A cheapest script that turns `source` into `target`.
pub open spec fn cheapest_script(source: Seq<Seq<char>>, target: Seq<Seq<char>>) -> Seq<Edit>
    decreases source.len() + target.len(),
{
    if source.len() == 0 && target.len() == 0 {
        Seq::empty()
    } else if target.len() == 0 {
        cheapest_script(source.drop_last(), target).push(Edit::Delete)
    } else if source.len() == 0 {
        cheapest_script(source, target.drop_last()).push(Edit::Insert)
    } else {
        let by_deletion = edit_distance(source.drop_last(), target) + deletion_cost_of(
            source.last(),
        );
        let by_substitution = edit_distance(source.drop_last(), target.drop_last())
            + substitution_cost_of(source.last(), target.last());
        let by_insertion = edit_distance(source, target.drop_last()) + insertion_cost_of(
            target.last(),
        );
        if by_deletion <= by_substitution && by_deletion <= by_insertion {
            cheapest_script(source.drop_last(), target).push(Edit::Delete)
        } else if by_substitution <= by_insertion {
            cheapest_script(source.drop_last(), target.drop_last()).push(Edit::Substitute)
        } else {
            cheapest_script(source, target.drop_last()).push(Edit::Insert)
        }
    }
}

/// No script that turns `source` into `target` costs less than the edit
/// distance between them.
pub proof fn lemma_no_script_is_cheaper(
    script: Seq<Edit>,
    source: Seq<Seq<char>>,
    target: Seq<Seq<char>>,
)
    requires
        turns(script, source, target),
    ensures
        edit_distance(source, target) <= script_cost(script, source, target),
    decreases script.len(),
{
    if script.len() > 0 {
        match script.last() {
            Edit::Delete => lemma_no_script_is_cheaper(
                script.drop_last(),
                source.drop_last(),
                target,
            ),
            Edit::Substitute => lemma_no_script_is_cheaper(
                script.drop_last(),
                source.drop_last(),
                target.drop_last(),
            ),
            Edit::Insert => lemma_no_script_is_cheaper(
                script.drop_last(),
                source,
                target.drop_last(),
            ),
        }
    }
}

/// Some script turns `source` into `target` at the cost of the edit distance
/// between them.
pub proof fn lemma_cheapest_script(source: Seq<Seq<char>>, target: Seq<Seq<char>>)
    ensures
        turns(cheapest_script(source, target), source, target),
        script_cost(cheapest_script(source, target), source, target) == edit_distance(
            source,
            target,
        ),
    decreases source.len() + target.len(),
{
    if source.len() > 0 || target.len() > 0 {
        if source.len() > 0 {
            lemma_cheapest_script(source.drop_last(), target);
            assert(cheapest_script(source.drop_last(), target).push(Edit::Delete).drop_last()
                =~= cheapest_script(source.drop_last(), target));
        }
        if target.len() > 0 {
            lemma_cheapest_script(source, target.drop_last());
            assert(cheapest_script(source, target.drop_last()).push(Edit::Insert).drop_last()
                =~= cheapest_script(source, target.drop_last()));
        }
        if source.len() > 0 && target.len() > 0 {
            lemma_cheapest_script(source.drop_last(), target.drop_last());
            assert(cheapest_script(source.drop_last(), target.drop_last()).push(
                Edit::Substitute,
            ).drop_last() =~= cheapest_script(source.drop_last(), target.drop_last()));
        }
    }
}

} // verus!
