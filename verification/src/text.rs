//! Building lines of text one character at a time.

use vstd::prelude::*;

verus! {

/// `String::push` of the standard library: the string afterwards is the
/// string before with `ch` added at its end. Trusted, not proved.
pub assume_specification[ String::push ](text: &mut String, ch: char)
    ensures
        final(text)@ == old(text)@.push(ch),
;

/// `count` copies of `ch`.
pub open spec fn repeated(ch: char, count: nat) -> Seq<char> {
    Seq::new(count, |i: int| ch)
}

/// How many characters a field of `width` has left beside a text of `len`.
pub open spec fn room(len: nat, width: nat) -> nat {
    if width > len {
        (width - len) as nat
    } else {
        0
    }
}

/// `text` at the right end of a field of `width` blanks. A text wider than
/// the field stands as it is.
pub open spec fn right_aligned(text: Seq<char>, width: nat) -> Seq<char> {
    repeated(' ', room(text.len(), width)) + text
}

/// `text` at the left end of a field of `width` characters, the rest of the
/// field taken up by `fill`. A text wider than the field stands as it is.
pub open spec fn filled(text: Seq<char>, fill: char, width: nat) -> Seq<char> {
    text + repeated(fill, room(text.len(), width))
}

/// Adds `count` copies of `ch` at the end of `text`.
pub fn push_repeated(text: &mut String, ch: char, count: usize)
    ensures
        final(text)@ == old(text)@ + repeated(ch, count as nat),
{
    let ghost before = text@;
    for done in 0..count
        invariant
            text@ == before + repeated(ch, done as nat),
    {
        text.push(ch);
    }
}

} // verus!
