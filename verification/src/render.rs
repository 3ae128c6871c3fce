//! Drawing a bracket as lines of text.
//!
//! The tree is walked left subtree first, then the slot itself, then the right
//! subtree, and every slot gives one line. A slot's line is indented by its
//! round, so that later rounds stand further to the right, and ends in the
//! vertical strokes of the matches that are still open around it.

use crate::text::{filled, push_repeated, repeated, right_aligned};
use crate::tree::{lemma_well_formed_height, Bracket, Node};
use vstd::prelude::*;

verus! {

/// The stroke that leads into a match slot.
pub const BRANCH: char = '┣';

/// The stroke after the upper contestant of a match.
pub const UPPER_CORNER: char = '┓';

/// The stroke after the lower contestant of a match.
pub const LOWER_CORNER: char = '┛';

/// The vertical stroke between the two contestants of a match.
pub const BAR: char = '┃';

/// The character that fills a cell after a short name.
pub const FILL: char = '┄';

/// One step down the tree.
#[derive(Debug, Clone, Copy, PartialEq, Eq, Structural)]
pub enum Step {
    /// To the left child.
    Left,
    /// To the right child.
    Right,
}

/// What stands before a slot's name: blanks for `cell_width` characters per
/// round and one more, the last of them replaced by the branch stroke unless
/// the slot is a participant.
pub open spec fn margin(level: int, cell_width: nat) -> Seq<char> {
    right_aligned(
        if level == 0 {
            Seq::empty()
        } else {
            seq![BRANCH]
        },
        (cell_width * level + 1) as nat,
    )
}

/// The stroke after a slot's name. `path` holds the steps from the root to the
/// slot, the last step first: the root has no stroke, a left child the upper
/// corner, a right child the lower one.
pub open spec fn corner(path: Seq<Step>) -> Seq<char> {
    if path.len() == 0 {
        Seq::empty()
    } else if path[0] == Step::Left {
        seq![UPPER_CORNER]
    } else {
        seq![LOWER_CORNER]
    }
}

/// The cell of a slot: its name and corner stroke, filled up to `cell_width`.
pub open spec fn cell(name: Seq<char>, path: Seq<Step>, cell_width: nat) -> Seq<char> {
    filled(name + corner(path), FILL, cell_width)
}

/// One field of the trail: a vertical stroke at the right end of the field
/// where the walk turned (the match above is still open), blanks where it
/// went on in the same direction.
pub open spec fn trail_field(turned: bool, cell_width: nat) -> Seq<char> {
    right_aligned(
        if turned {
            seq![BAR]
        } else {
            Seq::empty()
        },
        cell_width,
    )
}

/// What stands after a slot's cell: one field for every two neighbouring
/// steps of `path`, the last steps first.
pub open spec fn trail(path: Seq<Step>, cell_width: nat) -> Seq<char>
    decreases path.len(),
{
    if path.len() < 2 {
        Seq::empty()
    } else {
        trail_field(path[0] != path[1], cell_width) + trail(path.drop_first(), cell_width)
    }
}

/// The line of one slot.
pub open spec fn line_of(node: Node, path: Seq<Step>, cell_width: nat) -> Seq<char> {
    margin(node.level, cell_width) + cell(node.name, path, cell_width) + trail(path, cell_width)
}

/// The lines of the tree below and including `node`, which the walk reached
/// by `path` (last step first).
pub open spec fn lines_of(node: Node, path: Seq<Step>, cell_width: nat) -> Seq<Seq<char>>
    decreases node,
{
    (match node.left {
        Some(l) => lines_of(*l, seq![Step::Left] + path, cell_width),
        None => Seq::empty(),
    }) + seq![line_of(node, path, cell_width)] + (match node.right {
        Some(r) => lines_of(*r, seq![Step::Right] + path, cell_width),
        None => Seq::empty(),
    })
}

/// The drawing of the bracket rooted at `root`.
pub open spec fn drawing(root: Node, cell_width: nat) -> Seq<Seq<char>> {
    lines_of(root, Seq::empty(), cell_width)
}

/// `path` with `step` put before it.
fn extended(path: &Vec<Step>, step: Step) -> (longer: Vec<Step>)
    ensures
        longer@ == seq![step] + path@,
{
    let mut longer: Vec<Step> = Vec::new();
    longer.push(step);
    for i in 0..path.len()
        invariant
            longer@ == seq![step] + path@.take(i as int),
    {
        longer.push(path[i]);
    }
    longer
}

/// Adds the margin of a slot of round `level` to `line`.
fn push_margin(line: &mut String, level: i32, cell_width: usize)
    requires
        level >= 0,
    ensures
        final(line)@ == old(line)@ + margin(level as int, cell_width as nat),
{
    let ghost before = line@;
    for round in 0..level
        invariant
            line@ == before + repeated(' ', (cell_width * round) as nat),
    {
        push_repeated(line, ' ', cell_width);
        assert(cell_width * (round + 1) == cell_width * round + cell_width) by (nonlinear_arith);
    }
    if level == 0 {
        line.push(' ');
    } else {
        line.push(BRANCH);
    }
}

/// Adds the cell of a slot named `name` to `line`.
fn push_cell(line: &mut String, name: &String, path: &Vec<Step>, cell_width: usize)
    ensures
        final(line)@ == old(line)@ + cell(name@, path@, cell_width as nat),
{
    line.append(name.as_str());
    let name_len = name.as_str().unicode_len();
    let room = if cell_width > name_len {
        cell_width - name_len
    } else {
        0
    };
    let gap = if path.len() == 0 {
        room
    } else {
        line.push(
            match path[0] {
                Step::Left => UPPER_CORNER,
                Step::Right => LOWER_CORNER,
            },
        );
        if room > 0 {
            room - 1
        } else {
            0
        }
    };
    push_repeated(line, FILL, gap);
}

/// Adds the trail of a slot reached by `path` to `line`.
fn push_trail(line: &mut String, path: &Vec<Step>, cell_width: usize)
    ensures
        final(line)@ == old(line)@ + trail(path@, cell_width as nat),
{
    let ghost before = line@;
    let mut at: usize = 1;
    assert(path@.skip(0) =~= path@);
    while at < path.len()
        invariant
            1 <= at,
            at <= path@.len() || at == 1,
            line@ + trail(path@.skip(at - 1), cell_width as nat) == before + trail(
                path@,
                cell_width as nat,
            ),
        decreases path@.len() - at,
    {
        let turned = path[at - 1] != path[at];
        if turned {
            if cell_width > 0 {
                push_repeated(line, ' ', cell_width - 1);
            }
            line.push(BAR);
        } else {
            push_repeated(line, ' ', cell_width);
        }
        assert(path@.skip(at - 1).drop_first() =~= path@.skip(at as int));
        at = at + 1;
    }
}

impl Bracket {
    /// The line of this slot, which the walk reached by `path`.
    fn render_line(&self, path: &Vec<Step>, cell_width: usize) -> (line: String)
        requires
            self.level >= 0,
        ensures
            line@ == line_of(self@, path@, cell_width as nat),
    {
        let mut line = String::new();
        push_margin(&mut line, self.level, cell_width);
        push_cell(&mut line, &self.name, path, cell_width);
        push_trail(&mut line, path, cell_width);
        line
    }

    /// Adds to `lines` the lines of the tree rooted here, which the walk
    /// reached by `path`.
    fn render_into(&self, path: &Vec<Step>, cell_width: usize, lines: &mut Vec<String>)
        requires
            self@.well_formed(),
        ensures
            final(lines).deep_view() == old(lines).deep_view() + lines_of(
                self@,
                path@,
                cell_width as nat,
            ),
        decreases self,
    {
        proof {
            lemma_well_formed_height(self@);
        }
        match &self.left {
            Some(left) => {
                let down = extended(path, Step::Left);
                left.render_into(&down, cell_width, lines);
            },
            None => {},
        }
        let ghost above = lines.deep_view();
        lines.push(self.render_line(path, cell_width));
        assert(lines.deep_view() =~= above.push(line_of(self@, path@, cell_width as nat)));
        match &self.right {
            Some(right) => {
                let down = extended(path, Step::Right);
                right.render_into(&down, cell_width, lines);
            },
            None => {},
        }
    }

    /// Draws the bracket rooted here: one line for every slot, in the order
    /// of a walk that visits the left subtree, the slot, then the right
    /// subtree. Every round takes `cell_width` characters across.
    pub fn render(&self, cell_width: usize) -> (lines: Vec<String>)
        requires
            self@.well_formed(),
        ensures
            lines.deep_view() == drawing(self@, cell_width as nat),
    {
        let mut lines: Vec<String> = Vec::new();
        let path: Vec<Step> = Vec::new();
        self.render_into(&path, cell_width, &mut lines);
        lines
    }
}

} // verus!
