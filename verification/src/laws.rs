//! What holds of every bracket that the builder makes.

use crate::builder::{bracket_of, entrants, next_round, pair_up, round};
use crate::render::{drawing, line_of, lines_of, Step, FILL};
use crate::rounds::{ceil_log2, lemma_ceil_log2_pow2, round_count};
use crate::text::filled;
use crate::tree::{lemma_well_formed_height, Node};
use vstd::arithmetic::power2::{lemma2_to64, lemma_pow2_unfold, pow2};
use vstd::prelude::*;

verus! {

/// The slots of round `level` within a run of trees, from left to right.
pub open spec fn spread(slots: Seq<Node>, level: int) -> Seq<Node>
    decreases slots.len(),
{
    if slots.len() == 0 {
        Seq::empty()
    } else {
        slots[0].at_level(level) + spread(slots.drop_first(), level)
    }
}

/// The children of a run of slots, from left to right.
pub open spec fn children_of(slots: Seq<Node>) -> Seq<Node>
    decreases slots.len(),
{
    if slots.len() == 0 {
        Seq::empty()
    } else {
        slots[0].children() + children_of(slots.drop_first())
    }
}

/// Where a round made from `previous_len` slots has its bye, if it has one:
/// at the head of round 2, at the tail of any other round.
pub open spec fn bye_place(previous_len: nat, level: int) -> int {
    if level == 2 {
        0
    } else {
        previous_len as int / 2
    }
}

/// Pairing starts with the first two slots and goes on with the rest.
proof fn lemma_pair_up_unfold(previous: Seq<Node>, level: int)
    ensures
        previous.len() == 0 ==> pair_up(previous, level) == Seq::<Node>::empty(),
        previous.len() == 1 ==> pair_up(previous, level) == seq![
            Node::slot(level, previous[0], None),
        ],
        previous.len() >= 2 ==> pair_up(previous, level) == seq![
            Node::slot(level, previous[0], Some(previous[1])),
        ] + pair_up(previous.skip(2), level),
{
    if previous.len() >= 2 {
        let joined = seq![Node::slot(level, previous[0], Some(previous[1]))] + pair_up(
            previous.skip(2),
            level,
        );
        assert(pair_up(previous, level) =~= joined);
    }
}

/// The children of a round's slots, taken in order, are the slots of the
/// round before, each of them once.
pub proof fn lemma_children_of_pairs(previous: Seq<Node>, level: int)
    ensures
        children_of(pair_up(previous, level)) == previous,
    decreases previous.len(),
{
    lemma_pair_up_unfold(previous, level);
    let paired = pair_up(previous, level);
    if previous.len() == 1 {
        assert(children_of(paired.drop_first()) =~= Seq::<Node>::empty());
    } else if previous.len() >= 2 {
        lemma_children_of_pairs(previous.skip(2), level);
        assert(paired.drop_first() =~= pair_up(previous.skip(2), level));
    }
}

/// The children of a round's slots, taken in order, are the slots of the
/// round before, each of them once: every slot below the last round has
/// exactly one parent.
pub proof fn lemma_children_of_next_round(previous: Seq<Node>, level: int)
    ensures
        children_of(next_round(previous, level)) == previous,
{
    if level == 2 && previous.len() % 2 == 1 {
        let rest = previous.drop_first();
        let next = next_round(previous, level);
        lemma_children_of_pairs(rest, level);
        assert(next.drop_first() =~= pair_up(rest, level));
    } else {
        lemma_children_of_pairs(previous, level);
    }
}

/// Every round has half as many slots as the round before, rounded up.
pub proof fn lemma_next_round_len(previous: Seq<Node>, level: int)
    ensures
        next_round(previous, level).len() == (previous.len() + 1) / 2,
{
}

/// Every slot of `slots` is a well-formed tree with its root in round
/// `level`.
pub open spec fn all_rooted_at(slots: Seq<Node>, level: int) -> bool {
    forall|i: int|
        0 <= i < slots.len() ==> (#[trigger] slots[i]).well_formed() && slots[i].level == level
}

/// A round made from well-formed trees rooted one round below consists of
/// well-formed trees.
proof fn lemma_next_round_rooted(previous: Seq<Node>, level: int)
    requires
        all_rooted_at(previous, level - 1),
    ensures
        all_rooted_at(next_round(previous, level), level),
{
}

/// Round `r` consists of well-formed trees rooted in round `r`.
pub proof fn lemma_round_rooted(names: Seq<Seq<char>>, r: nat)
    ensures
        all_rooted_at(round(names, r), r as int),
    decreases r,
{
    if r > 0 {
        lemma_round_rooted(names, (r - 1) as nat);
        lemma_next_round_rooted(round(names, (r - 1) as nat), r as int);
    }
}

/// While rounds remain, round `r` is not empty, and the rounds that remain
/// after it are those of a bracket with as many participants as it has slots.
pub proof fn lemma_round_len(names: Seq<Seq<char>>, r: nat)
    requires
        names.len() >= 1,
        r <= ceil_log2(names.len()),
    ensures
        round(names, r).len() >= 1,
        r + ceil_log2(round(names, r).len()) == ceil_log2(names.len()),
    decreases r,
{
    if r > 0 {
        lemma_round_len(names, (r - 1) as nat);
    }
}

/// The bracket has exactly one slot in its last round, the root; it is well
/// formed, and it spans `round_count` rounds: the base-two logarithm of the
/// number of participants, rounded up, and one more.
pub proof fn lemma_bracket_rounds(names: Seq<Seq<char>>)
    requires
        names.len() >= 1,
    ensures
        round(names, ceil_log2(names.len())) == seq![bracket_of(names)],
        bracket_of(names).well_formed(),
        bracket_of(names).level == ceil_log2(names.len()),
        bracket_of(names).height() == round_count(names.len()),
{
    let last = ceil_log2(names.len());
    lemma_round_rooted(names, last);
    lemma_round_len(names, last);
    assert(round(names, last).len() == 1);
    lemma_well_formed_height(bracket_of(names));
}

/// A run of trees rooted in round `level` has exactly its roots in that
/// round.
proof fn lemma_spread_roots(slots: Seq<Node>, level: int)
    requires
        forall|i: int| 0 <= i < slots.len() ==> (#[trigger] slots[i]).level == level,
    ensures
        spread(slots, level) == slots,
    decreases slots.len(),
{
    if slots.len() > 0 {
        lemma_spread_roots(slots.drop_first(), level);
    }
}

/// Pairing adds slots in round `level` and leaves the other rounds as they
/// are.
proof fn lemma_spread_pairs(previous: Seq<Node>, level: int, wanted: int)
    requires
        wanted != level,
    ensures
        spread(pair_up(previous, level), wanted) == spread(previous, wanted),
    decreases previous.len(),
{
    lemma_pair_up_unfold(previous, level);
    let paired = pair_up(previous, level);
    if previous.len() == 1 {
        assert(spread(paired.drop_first(), wanted) =~= Seq::<Node>::empty());
        assert(spread(previous.drop_first(), wanted) =~= Seq::<Node>::empty());
    } else if previous.len() >= 2 {
        let rest = previous.skip(2);
        lemma_spread_pairs(rest, level, wanted);
        assert(paired.drop_first() =~= pair_up(rest, level));
        assert(previous.drop_first().drop_first() =~= rest);
        assert(spread(previous.drop_first(), wanted) == previous[1].at_level(wanted) + spread(
            rest,
            wanted,
        ));
    }
}

/// A new round adds slots in round `level` and leaves the other rounds as
/// they are.
proof fn lemma_spread_next_round(previous: Seq<Node>, level: int, wanted: int)
    requires
        wanted != level,
    ensures
        spread(next_round(previous, level), wanted) == spread(previous, wanted),
{
    if level == 2 && previous.len() % 2 == 1 {
        let rest = previous.drop_first();
        let next = next_round(previous, level);
        lemma_spread_pairs(rest, level, wanted);
        assert(next.drop_first() =~= pair_up(rest, level));
    } else {
        lemma_spread_pairs(previous, level, wanted);
    }
}

/// The trees of round `r` hold, in their round `wanted`, exactly the slots
/// of round `wanted`, in order.
proof fn lemma_spread_round(names: Seq<Seq<char>>, r: nat, wanted: nat)
    requires
        wanted <= r,
    ensures
        spread(round(names, r), wanted as int) == round(names, wanted),
    decreases r,
{
    if r == wanted {
        lemma_round_rooted(names, r);
        lemma_spread_roots(round(names, r), r as int);
    } else {
        lemma_spread_round(names, (r - 1) as nat, wanted);
        lemma_spread_next_round(round(names, (r - 1) as nat), r as int, wanted as int);
    }
}

/// The slots of the bracket that stand in round `r` are the slots of round
/// `r`, in order. In round 0 these are the participants, in the order given.
pub proof fn lemma_bracket_holds_rounds(names: Seq<Seq<char>>, r: nat)
    requires
        names.len() >= 1,
        r <= ceil_log2(names.len()),
    ensures
        bracket_of(names).at_level(r as int) == round(names, r),
        r == 0 ==> bracket_of(names).at_level(0) == entrants(names),
{
    let last = ceil_log2(names.len());
    lemma_bracket_rounds(names);
    lemma_spread_round(names, last, r);
    let top = round(names, last);
    assert(spread(top.drop_first(), r as int) =~= Seq::<Node>::empty());
}

/// The bracket is a tree with one root: its last round holds the root alone,
/// and the children of the slots of any other round `r`, taken in order, are
/// the slots of round `r - 1`, each of them once. So every slot but the root
/// has exactly one parent.
pub proof fn lemma_one_root_one_parent(names: Seq<Seq<char>>, r: nat)
    requires
        names.len() >= 1,
        1 <= r <= ceil_log2(names.len()),
    ensures
        bracket_of(names).at_level(ceil_log2(names.len()) as int) == seq![bracket_of(names)],
        children_of(bracket_of(names).at_level(r as int)) == bracket_of(names).at_level(r - 1),
{
    lemma_bracket_rounds(names);
    lemma_bracket_holds_rounds(names, ceil_log2(names.len()));
    lemma_bracket_holds_rounds(names, r);
    lemma_bracket_holds_rounds(names, (r - 1) as nat);
    lemma_children_of_next_round(round(names, (r - 1) as nat), r as int);
}

/// Round `r` of a bracket for `2^k` participants has `2^(k-r)` slots, and
/// no bye in or below them.
proof fn lemma_round_of_power_of_two(names: Seq<Seq<char>>, k: nat, r: nat)
    requires
        names.len() == pow2(k),
        r <= k,
    ensures
        round(names, r).len() == pow2((k - r) as nat),
        forall|i: int|
            0 <= i < round(names, r).len() ==> (#[trigger] round(names, r)[i]).bye_free(),
    decreases r,
{
    if r > 0 {
        lemma_round_of_power_of_two(names, k, (r - 1) as nat);
        lemma_pow2_unfold((k - r + 1) as nat);
    }
}

/// With a power of two as the number of participants, no slot of the bracket
/// is a bye: every match has both its contestants.
pub proof fn lemma_power_of_two_has_no_bye(names: Seq<Seq<char>>, k: nat)
    requires
        names.len() == pow2(k),
    ensures
        bracket_of(names).bye_free(),
{
    lemma_ceil_log2_pow2(k);
    lemma_round_of_power_of_two(names, k, k);
    lemma2_to64();
}

/// A round made from `previous` has a bye only if `previous` has an odd
/// number of slots, and then exactly one: at its head on the way into round
/// 2, at its tail otherwise.
pub proof fn lemma_byes_of_next_round(previous: Seq<Node>, level: int, i: int)
    requires
        0 <= i < next_round(previous, level).len(),
    ensures
        next_round(previous, level)[i].is_bye() <==> previous.len() % 2 == 1 && i == bye_place(
            previous.len(),
            level,
        ),
{
}

/// Among the slots of the bracket in round `r >= 1`, a bye stands only where
/// round `r - 1` has an odd number of slots, and then there is exactly one
/// in the round: the first slot of round 2, the last slot of any other round.
pub proof fn lemma_byes(names: Seq<Seq<char>>, r: nat, i: int)
    requires
        names.len() >= 1,
        1 <= r <= ceil_log2(names.len()),
        0 <= i < bracket_of(names).at_level(r as int).len(),
    ensures
        bracket_of(names).at_level(r as int)[i].is_bye() <==> bracket_of(names).at_level(
            r - 1,
        ).len() % 2 == 1 && i == bye_place(bracket_of(names).at_level(r - 1).len(), r as int),
{
    lemma_bracket_holds_rounds(names, r);
    lemma_bracket_holds_rounds(names, (r - 1) as nat);
    lemma_byes_of_next_round(round(names, (r - 1) as nat), r as int, i);
}

/// Rounds made from lists of equal length have the same shape.
proof fn lemma_round_same_shape(first: Seq<Seq<char>>, second: Seq<Seq<char>>, r: nat)
    requires
        first.len() == second.len(),
    ensures
        round(first, r).len() == round(second, r).len(),
        forall|i: int|
            0 <= i < round(first, r).len() ==> (#[trigger] round(first, r)[i]).same_shape(
                round(second, r)[i],
            ),
    decreases r,
{
    if r > 0 {
        lemma_round_same_shape(first, second, (r - 1) as nat);
    }
}

/// The shape of a bracket depends on the number of participants alone: the
/// order of the names decides who stands in which slot of round 0, and
/// nothing else.
pub proof fn lemma_shape_depends_on_count(first: Seq<Seq<char>>, second: Seq<Seq<char>>)
    requires
        first.len() == second.len() >= 1,
    ensures
        bracket_of(first).same_shape(bracket_of(second)),
{
    lemma_round_same_shape(first, second, ceil_log2(first.len()));
    lemma_round_len(first, ceil_log2(first.len()));
}

/// The drawing has one line for every slot of the tree.
pub proof fn lemma_one_line_per_slot(node: Node, path: Seq<Step>, cell_width: nat)
    ensures
        lines_of(node, path, cell_width).len() == node.size(),
    decreases node,
{
    match node.left {
        Some(l) => lemma_one_line_per_slot(*l, seq![Step::Left] + path, cell_width),
        None => {},
    }
    match node.right {
        Some(r) => lemma_one_line_per_slot(*r, seq![Step::Right] + path, cell_width),
        None => {},
    }
}

/// The bracket of a single participant is that participant alone, and its
/// drawing is one line: a blank, then the name, filled up to the cell's
/// width, with no stroke before or after it.
pub proof fn lemma_single_participant(name: Seq<char>, cell_width: nat)
    ensures
        bracket_of(seq![name]) == Node::leaf(name),
        drawing(bracket_of(seq![name]), cell_width) == seq![
            seq![' '] + filled(name, FILL, cell_width),
        ],
{
    let line = seq![' '] + filled(name, FILL, cell_width);
    assert(line_of(Node::leaf(name), Seq::empty(), cell_width) =~= line);
}

} // verus!
