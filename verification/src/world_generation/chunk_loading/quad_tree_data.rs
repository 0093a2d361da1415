//! The quadtree of one column of the world: a leaf per chunk that is shown,
//! a branch where four finer chunks take the place of a coarser one.

use vstd::prelude::*;
use vstd::arithmetic::power2::{lemma2_to64, lemma_pow2_strictly_increases, lemma_pow2_unfold, pow2};
use crate::utils::IVec2;

verus! {

/// A node of the quadtree. A leaf carries its payload; a branch carries its
/// four children, in the order of `QuadTreeDistinction`, and counts how
/// many of them have reported that they are finished. Both carry the handles
/// of what is still shown in their place and has to go once they are finished.
#[derive(Debug)]
pub enum QuadTreeNode<T> {
    Data(T, Vec<u64>),
    Node(
        Box<QuadTreeNode<T>>,
        Box<QuadTreeNode<T>>,
        Box<QuadTreeNode<T>>,
        Box<QuadTreeNode<T>>,
        i32,
        Vec<u64>,
    ),
}

/// The four children of a branch. Left and right differ in x, top and bottom in y.
#[derive(Clone, Copy, Debug, PartialEq, Eq, Structural)]
pub enum QuadTreeDistinction {
    TopLeft,
    TopRight,
    BottomLeft,
    BottomRight,
}

impl QuadTreeDistinction {
    pub open spec fn index(self) -> int {
        match self {
            QuadTreeDistinction::TopLeft => 0,
            QuadTreeDistinction::TopRight => 1,
            QuadTreeDistinction::BottomLeft => 2,
            QuadTreeDistinction::BottomRight => 3,
        }
    }

    /// The number of the child among its siblings.
    pub fn into(self) -> (i: i32)
        ensures
            i == self.index(),
    {
        match self {
            QuadTreeDistinction::TopLeft => 0,
            QuadTreeDistinction::TopRight => 1,
            QuadTreeDistinction::BottomLeft => 2,
            QuadTreeDistinction::BottomRight => 3,
        }
    }
}

/// Whether `position` names a node `depth` levels below a root: both
/// coordinates count from 0 up to, but not including, two to the `depth`.
pub open spec fn in_tree(depth: int, position: IVec2) -> bool {
    &&& 0 <= depth <= 30
    &&& 0 <= position.x < pow2(depth as nat)
    &&& 0 <= position.y < pow2(depth as nat)
}

/// The child of a root through which the way to `position`, `depth` levels down, leads.
pub open spec fn quadrant(depth: int, position: IVec2) -> QuadTreeDistinction {
    let half = pow2((depth - 1) as nat);
    if position.x < half {
        if position.y < half {
            QuadTreeDistinction::TopLeft
        } else {
            QuadTreeDistinction::BottomLeft
        }
    } else {
        if position.y < half {
            QuadTreeDistinction::TopRight
        } else {
            QuadTreeDistinction::BottomRight
        }
    }
}

/// The position, counted from the child's own corner, of what `position` names.
pub open spec fn descend(depth: int, position: IVec2) -> IVec2 {
    let half = pow2((depth - 1) as nat);
    IVec2 {
        x: (if position.x < half {
            position.x as int
        } else {
            position.x - half
        }) as i32,
        y: (if position.y < half {
            position.y as int
        } else {
            position.y - half
        }) as i32,
    }
}

/// The content of a quadtree as plain values: the payloads of the leaves by
/// their views, the lists of handles as sequences.
pub ghost enum TreeModel<V> {
    Leaf(V, Seq<u64>),
    Branch(Box<TreeModel<V>>, Box<TreeModel<V>>, Box<TreeModel<V>>, Box<TreeModel<V>>, int, Seq<u64>),
}

impl<T: View> QuadTreeNode<T> {
    /// The content of the tree.
    pub open spec fn model(self) -> TreeModel<T::V>
        decreases self,
    {
        match self {
            QuadTreeNode::Data(data, pending) => TreeModel::Leaf(data@, pending@),
            QuadTreeNode::Node(a, b, c, d, finished, pending) => TreeModel::Branch(
                Box::new((*a).model()),
                Box::new((*b).model()),
                Box::new((*c).model()),
                Box::new((*d).model()),
                finished as int,
                pending@,
            ),
        }
    }
}

impl<T: View> View for QuadTreeNode<T> {
    type V = TreeModel<T::V>;

    open spec fn view(&self) -> TreeModel<T::V> {
        self.model()
    }
}

impl<V> TreeModel<V> {
    /// The child of a branch at the given place.
    pub open spec fn child(self, which: QuadTreeDistinction) -> TreeModel<V>
        recommends
            self is Branch,
    {
        match which {
            QuadTreeDistinction::TopLeft => *self->Branch_0,
            QuadTreeDistinction::TopRight => *self->Branch_1,
            QuadTreeDistinction::BottomLeft => *self->Branch_2,
            QuadTreeDistinction::BottomRight => *self->Branch_3,
        }
    }

    /// The branch with one child replaced.
    pub open spec fn with_child(self, which: QuadTreeDistinction, node: TreeModel<V>) -> TreeModel<V>
        recommends
            self is Branch,
    {
        match self {
            TreeModel::Leaf(_, _) => self,
            TreeModel::Branch(a, b, c, d, finished, pending) => match which {
                QuadTreeDistinction::TopLeft => TreeModel::Branch(Box::new(node), b, c, d, finished, pending),
                QuadTreeDistinction::TopRight => TreeModel::Branch(a, Box::new(node), c, d, finished, pending),
                QuadTreeDistinction::BottomLeft => TreeModel::Branch(
                    a,
                    b,
                    Box::new(node),
                    d,
                    finished,
                    pending,
                ),
                QuadTreeDistinction::BottomRight => TreeModel::Branch(
                    a,
                    b,
                    c,
                    Box::new(node),
                    finished,
                    pending,
                ),
            },
        }
    }

    /// The node `depth` levels below this one at `position`, if the tree is
    /// subdivided that far there.
    pub open spec fn node_at(self, depth: int, position: IVec2) -> Option<TreeModel<V>>
        decreases depth,
    {
        if depth <= 0 {
            Some(self)
        } else if self is Leaf {
            None
        } else {
            self.child(quadrant(depth, position)).node_at(depth - 1, descend(depth, position))
        }
    }

    /// The node one level above the place that `position` names `depth`
    /// levels down; the root itself where that place is the root or one of
    /// its children.
    pub open spec fn parent_at(self, depth: int, position: IVec2) -> Option<TreeModel<V>>
        decreases depth,
    {
        if depth <= 1 {
            Some(self)
        } else if self is Leaf {
            None
        } else {
            self.child(quadrant(depth, position)).parent_at(depth - 1, descend(depth, position))
        }
    }

    /// The tree with the node `depth` levels down at `position` replaced by
    /// `node`; the tree itself if it is not subdivided that far there.
    pub open spec fn with_node(self, depth: int, position: IVec2, node: TreeModel<V>) -> TreeModel<V>
        decreases depth,
    {
        if depth <= 0 {
            node
        } else if self is Leaf {
            self
        } else {
            self.with_child(
                quadrant(depth, position),
                self.child(quadrant(depth, position)).with_node(
                    depth - 1,
                    descend(depth, position),
                    node,
                ),
            )
        }
    }

    /// The tree with the node one level above the place `depth` levels down
    /// at `position` replaced by `node`; the tree itself if it is not
    /// subdivided that far there.
    pub open spec fn with_parent(self, depth: int, position: IVec2, node: TreeModel<V>) -> TreeModel<V>
        decreases depth,
    {
        if depth <= 1 {
            node
        } else if self is Leaf {
            self
        } else {
            self.with_child(
                quadrant(depth, position),
                self.child(quadrant(depth, position)).with_parent(
                    depth - 1,
                    descend(depth, position),
                    node,
                ),
            )
        }
    }

    /// The node with one more child counted as finished, if it is a branch.
    /// The count stops at the largest number its counter can hold.
    pub open spec fn bump(self) -> TreeModel<V> {
        match self {
            TreeModel::Leaf(_, _) => self,
            TreeModel::Branch(a, b, c, d, finished, pending) => TreeModel::Branch(
                a,
                b,
                c,
                d,
                if finished < i32::MAX {
                    finished + 1
                } else {
                    finished
                },
                pending,
            ),
        }
    }

    /// Whether counting one more finished child completes the branch.
    pub open spec fn completes(self) -> bool {
        self is Branch && self->Branch_4 == 3
    }

    /// What is pending in place of the node.
    pub open spec fn pending(self) -> Seq<u64> {
        match self {
            TreeModel::Leaf(_, pending) => pending,
            TreeModel::Branch(_, _, _, _, _, pending) => pending,
        }
    }

    /// The tree after the node `depth` levels down at `position` has
    /// reported that it is finished, and the handles that are to go for it.
    ///
    /// The branch above the node counts one more finished child. With the
    /// fourth, what is pending in place of the branch is to go, and the
    /// branch reports in turn to the branch above it. The root, which has
    /// nothing above it, counts its own report.
    pub open spec fn reported(self, depth: int, position: IVec2) -> (TreeModel<V>, Seq<u64>)
        decreases depth,
    {
        match self.parent_at(depth, position) {
            None => (self, Seq::empty()),
            Some(parent) => {
                let after = self.with_parent(depth, position, parent.bump());
                if parent.completes() {
                    if depth >= 2 {
                        let rest = after.reported(depth - 1, halved(position));
                        (rest.0, parent.pending() + rest.1)
                    } else if depth == 1 {
                        (after, parent.pending())
                    } else {
                        (after.bump(), parent.pending())
                    }
                } else {
                    (after, Seq::empty())
                }
            },
        }
    }
}

impl<T: View> QuadTreeNode<T> {
    /// Finds the node `depth` levels down at `position`, to change it in place.
    pub fn get_node_mut(&mut self, depth: i32, position: IVec2) -> (found: Option<&mut QuadTreeNode<T>>)
        requires
            in_tree(depth as int, position),
        ensures
            found.is_some() == old(self)@.node_at(depth as int, position).is_some(),
            found matches Some(node) ==> Some(node@) == old(self)@.node_at(depth as int, position)
                && final(self)@ == old(self)@.with_node(depth as int, position, final(node)@),
            found is None ==> final(self)@ == old(self)@,
        decreases depth,
    {
        if depth == 0 {
            return Some(self);
        }
        match self {
            QuadTreeNode::Data(_, _) => None,
            QuadTreeNode::Node(a, b, c, d, _, _) => {
                let divider = half_width(depth);
                if position.x < divider {
                    if position.y < divider {
                        a.get_node_mut(depth - 1, position)
                    } else {
                        c.get_node_mut(depth - 1, IVec2 { x: position.x, y: position.y - divider })
                    }
                } else {
                    if position.y < divider {
                        b.get_node_mut(depth - 1, IVec2 { x: position.x - divider, y: position.y })
                    } else {
                        d.get_node_mut(
                            depth - 1,
                            IVec2 { x: position.x - divider, y: position.y - divider },
                        )
                    }
                }
            },
        }
    }

    /// Finds the node one level above the place `depth` levels down at
    /// `position`, to change it in place.
    pub fn get_parent_node_mut(&mut self, depth: i32, position: IVec2) -> (found: Option<
        &mut QuadTreeNode<T>,
    >)
        requires
            in_tree(depth as int, position),
        ensures
            found.is_some() == old(self)@.parent_at(depth as int, position).is_some(),
            found matches Some(node) ==> Some(node@) == old(self)@.parent_at(depth as int, position)
                && final(self)@ == old(self)@.with_parent(depth as int, position, final(node)@),
            found is None ==> final(self)@ == old(self)@,
        decreases depth,
    {
        if depth <= 1 {
            return Some(self);
        }
        match self {
            QuadTreeNode::Data(_, _) => None,
            QuadTreeNode::Node(a, b, c, d, _, _) => {
                let divider = half_width(depth);
                if position.x < divider {
                    if position.y < divider {
                        a.get_parent_node_mut(depth - 1, position)
                    } else {
                        c.get_parent_node_mut(depth - 1, IVec2 { x: position.x, y: position.y - divider })
                    }
                } else {
                    if position.y < divider {
                        b.get_parent_node_mut(depth - 1, IVec2 { x: position.x - divider, y: position.y })
                    } else {
                        d.get_parent_node_mut(
                            depth - 1,
                            IVec2 { x: position.x - divider, y: position.y - divider },
                        )
                    }
                }
            },
        }
    }

    /// Counts one more finished child at this node, if it is a branch.
    /// Returns whether that completed the branch, and appends what was
    /// pending in its place to `despawn` if so.
    pub fn count_finished(&mut self, despawn: &mut Vec<u64>) -> (complete: bool)
        ensures
            final(self)@ == old(self)@.bump(),
            complete == old(self)@.completes(),
            final(despawn)@ == old(despawn)@ + (if complete {
                old(self)@.pending()
            } else {
                Seq::empty()
            }),
    {
        match self {
            QuadTreeNode::Data(_, _) => {
                assert(despawn@ =~= old(despawn)@ + Seq::<u64>::empty());
                false
            },
            QuadTreeNode::Node(_, _, _, _, finished, pending) => {
                if *finished < i32::MAX {
                    *finished = *finished + 1;
                }
                if *finished == 4 {
                    let ghost before = despawn@;
                    let mut i: usize = 0;
                    while i < pending.len()
                        invariant
                            i <= pending@.len(),
                            despawn@ == before + pending@.take(i as int),
                        decreases pending@.len() - i,
                    {
                        despawn.push(pending[i]);
                        proof {
                            assert(pending@.take(i + 1) =~= pending@.take(i as int).push(pending@[i as int]));
                            assert(despawn@ =~= before + pending@.take(i + 1));
                        }
                        i += 1;
                    }
                    proof {
                        assert(pending@.take(pending@.len() as int) =~= pending@);
                    }
                    true
                } else {
                    assert(despawn@ =~= old(despawn)@ + Seq::<u64>::empty());
                    false
                }
            },
        }
    }

    /// Records that the node `depth` levels down at `position` is finished.
    /// The handles that are to go for it are appended to `despawn`.
    pub fn add_to_parent(&mut self, depth: i32, position: IVec2, despawn: &mut Vec<u64>)
        requires
            in_tree(depth as int, position),
        ensures
            final(self)@ == old(self)@.reported(depth as int, position).0,
            final(despawn)@ == old(despawn)@ + old(self)@.reported(depth as int, position).1,
        decreases depth,
    {
        let mut further = false;
        match self.get_parent_node_mut(depth, position) {
            None => {
                assert(despawn@ =~= old(despawn)@ + Seq::<u64>::empty());
            },
            Some(node) => {
                if node.count_finished(despawn) {
                    further = true;
                }
            },
        }
        if further {
            if depth >= 2 {
                proof {
                    lemma_halved_in_tree(depth as int, position);
                }
                let ghost middle = despawn@;
                self.add_to_parent(depth - 1, IVec2 { x: position.x / 2, y: position.y / 2 }, despawn);
                proof {
                    let parent = old(self)@.parent_at(depth as int, position).unwrap();
                    let after = old(self)@.with_parent(depth as int, position, parent.bump());
                    assert(despawn@ =~= old(despawn)@ + (parent.pending() + after.reported(
                        depth - 1,
                        halved(position),
                    ).1));
                }
            } else if depth == 0 {
                let mut ignored: Vec<u64> = Vec::new();
                let _ = self.count_finished(&mut ignored);
            }
        }
    }

    /// Whether what `closure` promises of a call holds of the payload of every leaf.
    pub open spec fn all_data_seen<F: Fn(&T)>(self, closure: &F) -> bool
        decreases self,
    {
        match self {
            QuadTreeNode::Data(data, _) => closure.ensures((&data,), ()),
            QuadTreeNode::Node(a, b, c, d, _, _) => (*a).all_data_seen(closure) && (*b).all_data_seen(
                closure,
            ) && (*c).all_data_seen(closure) && (*d).all_data_seen(closure),
        }
    }

    /// Calls `closure` on the payload of every leaf, children in their order.
    pub fn run_on_data<F: Fn(&T)>(&self, closure: &F)
        requires
            forall|data: &T| #[trigger] closure.requires((data,)),
        ensures
            self.all_data_seen(closure),
        decreases self,
    {
        match self {
            QuadTreeNode::Data(data, _) => closure(data),
            QuadTreeNode::Node(a, b, c, d, _, _) => {
                a.run_on_data(closure);
                b.run_on_data(closure);
                c.run_on_data(closure);
                d.run_on_data(closure);
            },
        }
    }

    /// Finds the node `depth` levels down at `position`.
    pub fn get_node(&self, depth: i32, position: IVec2) -> (found: Option<&QuadTreeNode<T>>)
        requires
            in_tree(depth as int, position),
        ensures
            found.is_some() == self@.node_at(depth as int, position).is_some(),
            found matches Some(node) ==> Some(node@) == self@.node_at(depth as int, position),
        decreases depth,
    {
        if depth == 0 {
            return Some(self);
        }
        match self {
            QuadTreeNode::Data(_, _) => None,
            QuadTreeNode::Node(a, b, c, d, _, _) => {
                let divider = half_width(depth);
                if position.x < divider {
                    if position.y < divider {
                        a.get_node(depth - 1, position)
                    } else {
                        c.get_node(depth - 1, IVec2 { x: position.x, y: position.y - divider })
                    }
                } else {
                    if position.y < divider {
                        b.get_node(depth - 1, IVec2 { x: position.x - divider, y: position.y })
                    } else {
                        d.get_node(
                            depth - 1,
                            IVec2 { x: position.x - divider, y: position.y - divider },
                        )
                    }
                }
            },
        }
    }

    /// Finds the node one level above the place `depth` levels down at `position`.
    pub fn get_parent_node(&self, depth: i32, position: IVec2) -> (found: Option<&QuadTreeNode<T>>)
        requires
            in_tree(depth as int, position),
        ensures
            found.is_some() == self@.parent_at(depth as int, position).is_some(),
            found matches Some(node) ==> Some(node@) == self@.parent_at(depth as int, position),
        decreases depth,
    {
        if depth <= 1 {
            return Some(self);
        }
        match self {
            QuadTreeNode::Data(_, _) => None,
            QuadTreeNode::Node(a, b, c, d, _, _) => {
                let divider = half_width(depth);
                if position.x < divider {
                    if position.y < divider {
                        a.get_parent_node(depth - 1, position)
                    } else {
                        c.get_parent_node(depth - 1, IVec2 { x: position.x, y: position.y - divider })
                    }
                } else {
                    if position.y < divider {
                        b.get_parent_node(depth - 1, IVec2 { x: position.x - divider, y: position.y })
                    } else {
                        d.get_parent_node(
                            depth - 1,
                            IVec2 { x: position.x - divider, y: position.y - divider },
                        )
                    }
                }
            },
        }
    }
}

/// The position one level up: both coordinates halved.
pub open spec fn halved(position: IVec2) -> IVec2 {
    IVec2 { x: (position.x as int / 2) as i32, y: (position.y as int / 2) as i32 }
}

/// The parent of a position that names a node `depth` levels down names a
/// node one level less far down.
pub proof fn lemma_halved_in_tree(depth: int, position: IVec2)
    requires
        in_tree(depth, position),
        depth >= 1,
    ensures
        in_tree(depth - 1, halved(position)),
{
    lemma_pow2_unfold(depth as nat);
}

/// Half the width, in nodes, of a tree that is `depth` levels deep.
pub fn half_width(depth: i32) -> (half: i32)
    requires
        1 <= depth <= 30,
    ensures
        half == pow2((depth - 1) as nat),
        2 * half == pow2(depth as nat),
        1 <= half <= 536870912,
{
    let mut half: i32 = 1;
    let mut level: i32 = 1;
    proof {
        lemma2_to64();
    }
    while level < depth
        invariant
            1 <= level <= depth <= 30,
            half == pow2((level - 1) as nat),
            1 <= half <= 536870912,
        decreases depth - level,
    {
        proof {
            lemma_pow2_unfold(level as nat);
            lemma2_to64();
            if level < 30 {
                lemma_pow2_strictly_increases(level as nat, 30);
            }
        }
        half = half * 2;
        level += 1;
    }
    proof {
        lemma_pow2_unfold(depth as nat);
    }
    half
}

/// The child through which the way to `position` leads at the last step:
/// it is told by whether the coordinates are even or odd.
pub open spec fn last_quadrant(position: IVec2) -> QuadTreeDistinction {
    if position.x % 2 == 0 {
        if position.y % 2 == 0 {
            QuadTreeDistinction::TopLeft
        } else {
            QuadTreeDistinction::BottomLeft
        }
    } else {
        if position.y % 2 == 0 {
            QuadTreeDistinction::TopRight
        } else {
            QuadTreeDistinction::BottomRight
        }
    }
}

/// The way to a node leads through the node above it: what lies at
/// `position` one level further down is a child of what lies at the halved
/// position, and nothing if that is a leaf or is not there.
pub proof fn lemma_node_below<V>(tree: TreeModel<V>, depth: int, position: IVec2)
    requires
        depth >= 0,
        in_tree(depth + 1, position),
    ensures
        tree.node_at(depth + 1, position) == (match tree.node_at(depth, halved(position)) {
            None => None,
            Some(above) => if above is Leaf {
                None
            } else {
                Some(above.child(last_quadrant(position)))
            },
        }),
        tree.parent_at(depth + 1, position) == tree.node_at(depth, halved(position)),
    decreases depth,
{
    lemma_pow2_unfold((depth + 1) as nat);
    lemma2_to64();
    if depth == 0 {
        reveal_with_fuel(TreeModel::node_at, 2);
        reveal_with_fuel(TreeModel::parent_at, 2);
        assert(pow2(0) == 1);
        assert(pow2(1) == 2);
        assert(quadrant(1, position) == last_quadrant(position));
        assert(tree.node_at(0, halved(position)) == Some(tree));
        if tree is Branch {
            assert(tree.node_at(1, position) == Some(tree.child(quadrant(1, position))));
        } else {
            assert(tree.node_at(1, position).is_none());
        }
    } else {
        lemma_pow2_unfold(depth as nat);
        let which = quadrant(depth + 1, position);
        let inner = descend(depth + 1, position);
        let half = pow2(depth as nat) as int;
        let quarter = pow2((depth - 1) as nat) as int;
        assert(half == 2 * quarter);
        assert(which == quadrant(depth, halved(position)));
        assert(halved(inner) == descend(depth, halved(position)));
        assert(last_quadrant(inner) == last_quadrant(position));
        assert(in_tree(depth, inner));
        if tree is Branch {
            lemma_node_below(tree.child(which), depth - 1, inner);
            assert(tree.node_at(depth + 1, position) == tree.child(which).node_at(depth, inner));
            assert(tree.node_at(depth, halved(position)) == tree.child(which).node_at(
                depth - 1,
                halved(inner),
            ));
            assert(tree.parent_at(depth + 1, position) == tree.child(which).parent_at(depth, inner));
        } else {
            assert(tree.node_at(depth + 1, position).is_none());
            assert(tree.node_at(depth, halved(position)).is_none());
            assert(tree.parent_at(depth + 1, position).is_none());
        }
    }
}

/// A place of the tree is a leaf or is subdivided, never both: below a
/// leaf the tree has no node.
pub proof fn lemma_leaf_has_no_children<V>(tree: TreeModel<V>, depth: int, position: IVec2)
    requires
        depth >= 0,
        in_tree(depth + 1, position),
        tree.node_at(depth, halved(position)) matches Some(above) && above is Leaf,
    ensures
        tree.node_at(depth + 1, position).is_none(),
{
    lemma_node_below(tree, depth, position);
}

} // verus!
