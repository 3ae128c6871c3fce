//! Building the bracket: round after round, pairing the slots of the round
//! before.

use crate::error::BracketError;
use crate::laws::{lemma_bracket_holds_rounds, lemma_bracket_rounds};
use crate::rounds::{ceil_log2, lemma_ceil_log2_fits, round_count, rounds_needed};
use crate::tree::{placeholder, Bracket, Node};
use vstd::prelude::*;

verus! {

/// The models of a run of trees.
pub open spec fn models(trees: Seq<Bracket>) -> Seq<Node> {
    Seq::new(trees.len(), |i: int| trees[i]@)
}

/// Round 0: one childless slot per participant, in the order given.
pub open spec fn entrants(names: Seq<Seq<char>>) -> Seq<Node> {
    Seq::new(names.len(), |i: int| Node::leaf(names[i]))
}

/// The slots of round `level` that pair the slots of `previous` two by two, in
/// order. A last slot left without an opponent advances alone.
pub open spec fn pair_up(previous: Seq<Node>, level: int) -> Seq<Node> {
    Seq::new(
        ((previous.len() + 1) / 2) as nat,
        |i: int|
            Node::slot(
                level,
                previous[2 * i],
                if 2 * i + 1 < previous.len() {
                    Some(previous[2 * i + 1])
                } else {
                    None
                },
            ),
    )
}

/// The slots of round `level`, made from those of the round before. Only on
/// the way into round 2, and only when the round before has an odd number of
/// slots, its first slot advances alone ahead of the pairs.
pub open spec fn next_round(previous: Seq<Node>, level: int) -> Seq<Node> {
    if level == 2 && previous.len() % 2 == 1 {
        seq![Node::slot(level, previous[0], None)] + pair_up(previous.drop_first(), level)
    } else {
        pair_up(previous, level)
    }
}

/// The slots of round `r` of the bracket for `names`.
pub open spec fn round(names: Seq<Seq<char>>, r: nat) -> Seq<Node>
    decreases r,
{
    if r == 0 {
        entrants(names)
    } else {
        next_round(round(names, (r - 1) as nat), r as int)
    }
}

/// The bracket for `names`: the one slot of the last round.
pub open spec fn bracket_of(names: Seq<Seq<char>>) -> Node {
    round(names, ceil_log2(names.len()))[0]
}

/// A new match slot of round `level`.
fn new_slot(level: i32, left: Bracket, right: Option<Bracket>) -> (slot: Bracket)
    ensures
        slot@ == Node::slot(
            level as int,
            left@,
            match right {
                Some(r) => Some(r@),
                None => None,
            },
        ),
{
    proof {
        reveal_strlit("◈");
        assert("◈"@ =~= placeholder());
    }
    Bracket {
        name: "◈".to_owned(),
        level,
        left: Some(Box::new(left)),
        right: match right {
            Some(r) => Some(Box::new(r)),
            None => None,
        },
    }
}

/// Pairs the slots of `previous` two by two into slots of round `level`,
/// appended to `next`.
fn pair_into(previous: Vec<Bracket>, level: i32, next: &mut Vec<Bracket>)
    ensures
        models(final(next)@) == models(old(next)@) + pair_up(models(previous@), level as int),
{
    let ghost before = models(next@);
    let ghost prev = models(previous@);
    let mut waiting: Option<Bracket> = None;
    for slot in it: previous
        invariant
            it.seq() == previous@,
            prev == models(previous@),
            next@.len() == before.len() + it.index() / 2,
            forall|j: int| 0 <= j < before.len() ==> next@[j]@ == before[j],
            forall|j: int|
                0 <= j < it.index() / 2 ==> (#[trigger] next@[before.len() + j])@ == Node::slot(
                    level as int,
                    prev[2 * j],
                    Some(prev[2 * j + 1]),
                ),
            it.index() % 2 == 0 ==> waiting is None,
            it.index() % 2 == 1 ==> waiting is Some && waiting.unwrap()@ == prev[it.index() - 1],
    {
        match waiting.take() {
            None => {
                waiting = Some(slot);
            },
            Some(left) => {
                next.push(new_slot(level, left, Some(slot)));
            },
        }
    }
    match waiting {
        Some(left) => {
            next.push(new_slot(level, left, None));
        },
        None => {},
    }
    proof {
        let paired = pair_up(prev, level as int);
        assert forall|i: int| 0 <= i < next@.len() implies #[trigger] models(next@)[i] == (before
            + paired)[i] by {
            if i >= before.len() {
                let j = i - before.len();
                assert(next@[before.len() + j]@ == paired[j]);
            }
        }
    }
}

/// The slots of round `level`, made from those of the round before.
fn advance(previous: Vec<Bracket>, level: i32) -> (next: Vec<Bracket>)
    ensures
        models(next@) == next_round(models(previous@), level as int),
{
    let mut rest = previous;
    let mut next: Vec<Bracket> = Vec::new();
    if level == 2 && rest.len() % 2 == 1 {
        let first = rest.remove(0);
        next.push(new_slot(level, first, None));
    }
    pair_into(rest, level, &mut next);
    next
}

impl Bracket {
    /// Builds the bracket for the participants `base`, paired in the order
    /// given. Without participants there is no bracket.
    ///
    /// The bracket is well formed, spans as many rounds as the participants
    /// need, and holds the participants in its round 0, in the order given.
    pub fn from(base: &Vec<String>) -> (built: Result<Bracket, BracketError>)
        ensures
            base@.len() == 0 ==> built == Err::<Bracket, BracketError>(BracketError::EmptyInput),
            base@.len() > 0 ==> built is Ok && built.unwrap()@ == bracket_of(base.deep_view()),
            built is Ok ==> built.unwrap()@.well_formed(),
            built is Ok ==> built.unwrap()@.height() == round_count(base@.len()),
            built is Ok ==> built.unwrap()@.at_level(0) == entrants(base.deep_view()),
    {
        if base.len() == 0 {
            return Err(BracketError::EmptyInput);
        }
        let ghost names = base.deep_view();
        let mut current: Vec<Bracket> = Vec::new();
        for i in 0..base.len()
            invariant
                names == base.deep_view(),
                current@.len() == i,
                forall|j: int| 0 <= j < i ==> (#[trigger] current@[j])@ == Node::leaf(names[j]),
        {
            current.push(Bracket { name: base[i].clone(), level: 0, left: None, right: None });
        }
        let rounds = rounds_needed(base.len());
        proof {
            lemma_ceil_log2_fits(names.len());
            lemma_bracket_rounds(names);
            lemma_bracket_holds_rounds(names, 0);
        }
        for level in 1..rounds
            invariant
                rounds == round_count(names.len()) <= 65,
                models(current@) == round(names, (level - 1) as nat),
        {
            current = advance(current, level as i32);
        }
        Ok(current.remove(0))
    }
}

} // verus!
