//! From a list of names to the lines of the finished diagram.

use crate::builder::bracket_of;
use crate::error::BracketError;
use crate::random::shuffle;
use crate::render::drawing;
use crate::tree::Bracket;
use vstd::prelude::*;
use vstd::seq_lib::{to_multiset_contains, to_multiset_len};
use vstd::utf8::encode_utf8;

verus! {

/// The number of bytes that `name` takes as text.
pub open spec fn byte_len(name: Seq<char>) -> nat {
    encode_utf8(name).len()
}

/// The number of bytes of the longest of `names`; 0 where there is none.
pub open spec fn longest(names: Seq<Seq<char>>) -> nat
    decreases names.len(),
{
    if names.len() == 0 {
        0
    } else {
        let before = longest(names.drop_last());
        if byte_len(names.last()) > before {
            byte_len(names.last())
        } else {
            before
        }
    }
}

/// The width of a cell that suits `names`: room for the longest of them and
/// two characters more.
pub open spec fn cell_width_for(names: Seq<Seq<char>>) -> nat {
    longest(names) + 2
}

/// The diagram of the bracket for `names`, paired in the order given.
pub open spec fn diagram(names: Seq<Seq<char>>) -> Seq<Seq<char>> {
    drawing(bracket_of(names), cell_width_for(names))
}

/// The longest name is at least as long as every name, and one of the names
/// has its length.
pub proof fn lemma_longest(names: Seq<Seq<char>>)
    ensures
        forall|i: int| 0 <= i < names.len() ==> byte_len(#[trigger] names[i]) <= longest(names),
        names.len() > 0 ==> exists|i: int|
            0 <= i < names.len() && byte_len(#[trigger] names[i]) == longest(names),
    decreases names.len(),
{
    if names.len() > 0 {
        let front = names.drop_last();
        lemma_longest(front);
        assert forall|i: int| 0 <= i < names.len() implies byte_len(#[trigger] names[i])
            <= longest(names) by {
            if i < front.len() {
                assert(front[i] == names[i]);
            }
        }
        if byte_len(names.last()) > longest(front) || front.len() == 0 {
            assert(byte_len(names[names.len() - 1]) == longest(names));
        } else {
            let i = choose|i: int|
                0 <= i < front.len() && byte_len(#[trigger] front[i]) == longest(front);
            assert(byte_len(names[i]) == longest(names));
        }
    }
}

/// The width of a cell that suits `names`. Without names there is none.
pub fn cell_width(names: &Vec<String>) -> (width: Result<usize, BracketError>)
    requires
        cell_width_for(names.deep_view()) <= usize::MAX,
    ensures
        names@.len() == 0 ==> width == Err::<usize, BracketError>(BracketError::EmptyInput),
        names@.len() > 0 ==> width == Ok::<usize, BracketError>(
            cell_width_for(names.deep_view()) as usize,
        ),
{
    if names.len() == 0 {
        return Err(BracketError::EmptyInput);
    }
    let ghost all = names.deep_view();
    let mut most: usize = 0;
    for i in 0..names.len()
        invariant
            all == names.deep_view(),
            most == longest(all.take(i as int)),
    {
        let len = names[i].as_str().as_bytes().len();
        assert(all.take(i + 1).drop_last() =~= all.take(i as int));
        if len > most {
            most = len;
        }
    }
    assert(all.take(names@.len() as int) =~= all);
    Ok(most + 2)
}

/// No name of `first` is longer than the longest of `second`, where every
/// name of `first` is among those of `second`.
proof fn lemma_longest_among(first: Seq<Seq<char>>, second: Seq<Seq<char>>)
    requires
        first.to_multiset() == second.to_multiset(),
    ensures
        longest(first) <= longest(second),
{
    lemma_longest(first);
    lemma_longest(second);
    if first.len() > 0 {
        let i = choose|i: int|
            0 <= i < first.len() && byte_len(#[trigger] first[i]) == longest(first);
        to_multiset_contains(first, first[i]);
        to_multiset_contains(second, first[i]);
    }
}

/// The same names in another order are as many, and ask for the same cell
/// width.
pub proof fn lemma_reordered(first: Seq<Seq<char>>, second: Seq<Seq<char>>)
    requires
        first.to_multiset() == second.to_multiset(),
    ensures
        first.len() == second.len(),
        cell_width_for(first) == cell_width_for(second),
{
    to_multiset_len(first);
    to_multiset_len(second);
    lemma_longest_among(first, second);
    lemma_longest_among(second, first);
}

/// Draws the bracket for `names`, paired in the order given, in cells that
/// suit the longest name. Without names there is nothing to draw.
pub fn draw_in_order(names: &Vec<String>) -> (lines: Result<Vec<String>, BracketError>)
    requires
        cell_width_for(names.deep_view()) <= usize::MAX,
    ensures
        names@.len() == 0 ==> lines == Err::<Vec<String>, BracketError>(BracketError::EmptyInput),
        names@.len() > 0 ==> lines is Ok && lines.unwrap().deep_view() == diagram(
            names.deep_view(),
        ),
{
    let width = match cell_width(names) {
        Ok(width) => width,
        Err(error) => {
            return Err(error);
        },
    };
    let bracket = match Bracket::from(names) {
        Ok(bracket) => bracket,
        Err(error) => {
            return Err(error);
        },
    };
    Ok(bracket.render(width))
}

/// Draws the bracket for `names`: paired in the order given, or, where
/// `random` is set, in an order drawn by lot. Without names there is nothing
/// to draw. Whatever the lot, the drawing is that of the same names in some
/// order.
pub fn draw(names: Vec<String>, random: bool) -> (lines: Result<Vec<String>, BracketError>)
    requires
        cell_width_for(names.deep_view()) <= usize::MAX,
    ensures
        names@.len() == 0 ==> lines == Err::<Vec<String>, BracketError>(BracketError::EmptyInput),
        names@.len() > 0 ==> lines is Ok && exists|order: Seq<Seq<char>>|
            {
                &&& order.to_multiset() == names.deep_view().to_multiset()
                &&& !random ==> order == names.deep_view()
                &&& lines.unwrap().deep_view() == #[trigger] diagram(order)
            },
{
    let mut order = names;
    if random {
        shuffle(&mut order);
    }
    proof {
        lemma_reordered(order.deep_view(), names.deep_view());
    }
    draw_in_order(&order)
}

} // verus!
