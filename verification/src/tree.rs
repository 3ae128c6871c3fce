//! The bracket tree and its mathematical model.

use vstd::prelude::*;

verus! {

/// One slot of a bracket: a participant, or a match between the slots below.
///
/// A participant has no children. A match always has a `left` contestant; its
/// `right` contestant is absent when the left one advances unopposed (a bye).
#[derive(Debug, PartialEq)]
pub struct Bracket {
    pub name: String,
    pub level: i32,
    pub left: Option<Box<Bracket>>,
    pub right: Option<Box<Bracket>>,
}

/// The mathematical model of a [`Bracket`]: the same tree over unbounded
/// integers and sequences of characters.
pub ghost struct Node {
    pub name: Seq<char>,
    pub level: int,
    pub left: Option<Box<Node>>,
    pub right: Option<Box<Node>>,
}

impl Bracket {
    /// The model of the tree rooted here.
    pub open spec fn model(self) -> Node
        decreases self,
    {
        Node {
            name: self.name@,
            level: self.level as int,
            left: match self.left {
                Some(child) => Some(Box::new(child.model())),
                None => None,
            },
            right: match self.right {
                Some(child) => Some(Box::new(child.model())),
                None => None,
            },
        }
    }
}

impl Clone for Bracket {
    /// A copy of the whole tree.
    fn clone(&self) -> (copy: Self)
        ensures
            copy == *self,
        decreases self,
    {
        Bracket {
            name: self.name.clone(),
            level: self.level,
            left: match &self.left {
                Some(child) => Some(Box::new((&**child).clone())),
                None => None,
            },
            right: match &self.right {
                Some(child) => Some(Box::new((&**child).clone())),
                None => None,
            },
        }
    }
}

impl Bracket {
    /// Whether the tree rooted here keeps the structural invariant of a
    /// bracket.
    pub fn is_well_formed(&self) -> (ok: bool)
        ensures
            ok == self@.well_formed(),
        decreases self,
    {
        let left_ok = match &self.left {
            Some(left) => left.level < self.level && left.level + 1 == self.level
                && left.is_well_formed(),
            None => self.level == 0 && self.right.is_none(),
        };
        let right_ok = match &self.right {
            Some(right) => right.level < self.level && right.level + 1 == self.level
                && right.is_well_formed(),
            None => true,
        };
        left_ok && right_ok
    }
}

impl View for Bracket {
    type V = Node;

    open spec fn view(&self) -> Node {
        self.model()
    }
}

/// The label of every match slot.
pub open spec fn placeholder() -> Seq<char> {
    seq!['◈']
}

impl Node {
    /// A participant: a childless slot in round 0.
    pub open spec fn leaf(name: Seq<char>) -> Node {
        Node { name, level: 0, left: None, right: None }
    }

    /// A match slot of round `level` fed by `left` and, unless it is a bye, by
    /// `right`.
    pub open spec fn slot(level: int, left: Node, right: Option<Node>) -> Node {
        Node {
            name: placeholder(),
            level,
            left: Some(Box::new(left)),
            right: match right {
                Some(r) => Some(Box::new(r)),
                None => None,
            },
        }
    }

    /// A slot without children.
    pub open spec fn is_leaf(self) -> bool {
        self.left is None && self.right is None
    }

    /// A slot whose left contestant advances unopposed.
    pub open spec fn is_bye(self) -> bool {
        self.left is Some && self.right is None
    }

    /// The slots that feed this one, left before right.
    pub open spec fn children(self) -> Seq<Node> {
        (match self.left {
            Some(l) => seq![*l],
            None => Seq::empty(),
        }) + (match self.right {
            Some(r) => seq![*r],
            None => Seq::empty(),
        })
    }

    /// The structural invariant of a bracket: a childless slot is in round 0,
    /// any other slot has a left child, and every child is exactly one round
    /// below its parent.
    pub open spec fn well_formed(self) -> bool
        decreases self,
    {
        &&& match self.left {
            Some(l) => l.level + 1 == self.level && l.well_formed(),
            None => self.level == 0 && self.right is None,
        }
        &&& match self.right {
            Some(r) => r.level + 1 == self.level && r.well_formed(),
            None => true,
        }
    }

    /// The number of slots in the tree.
    pub open spec fn size(self) -> nat
        decreases self,
    {
        1 + (match self.left {
            Some(l) => l.size(),
            None => 0,
        }) + (match self.right {
            Some(r) => r.size(),
            None => 0,
        })
    }

    /// The number of rounds the tree spans, from its deepest slot to its root.
    pub open spec fn height(self) -> nat
        decreases self,
    {
        let below_left = match self.left {
            Some(l) => l.height(),
            None => 0,
        };
        let below_right = match self.right {
            Some(r) => r.height(),
            None => 0,
        };
        1 + if below_left >= below_right { below_left } else { below_right }
    }

    /// The slots of round `level` in the tree, from left to right.
    pub open spec fn at_level(self, level: int) -> Seq<Node>
        decreases self,
    {
        if self.level == level {
            seq![self]
        } else {
            (match self.left {
                Some(l) => l.at_level(level),
                None => Seq::empty(),
            }) + (match self.right {
                Some(r) => r.at_level(level),
                None => Seq::empty(),
            })
        }
    }

    /// The two trees have the same slots in the same rounds; only the names
    /// may differ.
    pub open spec fn same_shape(self, other: Node) -> bool
        decreases self,
    {
        &&& self.level == other.level
        &&& match (self.left, other.left) {
            (Some(l), Some(m)) => l.same_shape(*m),
            (None, None) => true,
            _ => false,
        }
        &&& match (self.right, other.right) {
            (Some(r), Some(q)) => r.same_shape(*q),
            (None, None) => true,
            _ => false,
        }
    }

    /// No slot of the tree is a bye.
    pub open spec fn bye_free(self) -> bool
        decreases self,
    {
        &&& !self.is_bye()
        &&& match self.left {
            Some(l) => l.bye_free(),
            None => true,
        }
        &&& match self.right {
            Some(r) => r.bye_free(),
            None => true,
        }
    }
}

/// In a well-formed tree no slot lies below round 0, and the tree spans
/// exactly the rounds from 0 to its root's.
pub proof fn lemma_well_formed_height(node: Node)
    requires
        node.well_formed(),
    ensures
        node.level >= 0,
        node.height() == node.level + 1,
    decreases node,
{
    match node.left {
        Some(l) => lemma_well_formed_height(*l),
        None => {},
    }
    match node.right {
        Some(r) => lemma_well_formed_height(*r),
        None => {},
    }
}

} // verus!
