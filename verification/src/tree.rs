//! Levelled binary trees with shared and memoized nodes.

use vstd::prelude::*;
use std::rc::Rc;
use std::hash::Hash;
use crate::level::content_hash;
use crate::level::lev_of_hash;
use crate::engine::Engine;
use crate::engine::Store;

verus! {

/// A persistent binary tree over leaves of type `X`, with names of type `N`
/// and articulation points addressed by locations of type `L`.
///
/// `Nil`, `Leaf`, `Bin` and `Name` are the semantic variants. `Rc` is a shared
/// node and `Art` a memoized one: elimination never hands either to a consumer.
#[derive(Debug, PartialEq, Eq, Hash)]
pub enum Tree<N, L, X> {
    Nil,
    Leaf(X),
    Bin(u32, Box<Tree<N, L, X>>, Box<Tree<N, L, X>>),
    Name(N, u32, Box<Tree<N, L, X>>, Box<Tree<N, L, X>>),
    Rc(Rc<Tree<N, L, X>>),
    Art(L),
}

/// One more than the largest rank of an articulation point that occurs in `t`,
/// or zero where `t` holds none.
pub open spec fn tree_rank<N, L, X>(rank: Map<L, nat>, t: Tree<N, L, X>) -> nat
    decreases t,
{
    match t {
        Tree::Nil => 0,
        Tree::Leaf(_) => 0,
        Tree::Bin(_, l, r) => {
            let a = tree_rank(rank, *l);
            let b = tree_rank(rank, *r);
            if a >= b { a } else { b }
        },
        Tree::Name(_, _, l, r) => {
            let a = tree_rank(rank, *l);
            let b = tree_rank(rank, *r);
            if a >= b { a } else { b }
        },
        Tree::Rc(p) => tree_rank(rank, *p),
        Tree::Art(loc) => rank[loc] + 1,
    }
}

/// The semantic node that `t` stands for: shared nodes are looked through, and
/// memoized ones are replaced by what the store holds for them. A failure held
/// in the store is the result. A memoized node is left standing only where the
/// tree stored for it does not keep below its rank, which no engine hands out.
pub open spec fn tree_resolve<N, L, X, F>(s: Store<N, L, X, F>, t: Tree<N, L, X>) -> Result<Tree<N, L, X>, F>
    decreases tree_rank(s.rank, t), t,
{
    match t {
        Tree::Rc(p) => tree_resolve(s, *p),
        Tree::Art(loc) => match s.trees[loc] {
            Ok(u) => if tree_rank(s.rank, u) <= s.rank[loc] {
                tree_resolve(s, u)
            } else {
                Ok(t)
            },
            Err(e) => Err(e),
        },
        _ => Ok(t),
    }
}

/// The order of levels.
pub open spec fn lev_lte_spec(x: u32, y: u32) -> bool {
    x <= y
}

/// That `v` is the level at the top of the semantic node `node`: zero for the
/// empty tree, the level stored in an internal node, and for a leaf a level
/// of its value, drawn from a content hash of it, which is at most 64.
pub open spec fn tree_level_is<N, L, X: Hash>(node: Tree<N, L, X>, v: u32) -> bool {
    match node {
        Tree::Nil => v == 0,
        Tree::Leaf(x) => v <= 64 && crate::level::is_level_of(&x, v),
        Tree::Bin(b, _, _) => v == b,
        Tree::Name(_, b, _, _) => v == b,
        _ => false,
    }
}

impl<N, L, X> Tree<N, L, X> {
    /// What a shared node refers to; any other tree itself.
    pub open spec fn referent(self) -> Self {
        match self {
            Tree::Rc(p) => *p,
            _ => self,
        }
    }

    /// Whether this is one of the four semantic variants.
    pub open spec fn is_semantic(self) -> bool {
        self is Nil || self is Leaf || self is Bin || self is Name
    }

    /// The level of the value `x`: the number of trailing zero bits of its
    /// content hash.
    pub fn lev<Y: Hash>(x: &Y) -> (r: u32)
        ensures
            crate::level::is_level_of(x, r),
            r <= 64,
    {
        lev_of_hash(content_hash(x))
    }

    /// The width of a level in bits.
    pub fn lev_bits() -> (r: u32)
        ensures
            r == 32,
    {
        32
    }

    /// The least level, which is that of the empty tree.
    pub fn lev_zero() -> (r: u32)
        ensures
            r == 0,
    {
        0
    }

    /// The greatest level.
    pub fn lev_max_val() -> (r: u32)
        ensures
            r == u32::MAX,
    {
        u32::MAX
    }

    /// The sum of two levels.
    pub fn lev_add(x: &u32, y: &u32) -> (r: u32)
        requires
            *x + *y <= u32::MAX,
        ensures
            r == *x + *y,
    {
        *x + *y
    }

    /// The level after `x`.
    pub fn lev_inc(x: &u32) -> (r: u32)
        requires
            *x < u32::MAX,
        ensures
            r == *x + 1,
    {
        *x + 1
    }

    /// Whether `x` is at most `y` in the order of levels.
    pub fn lev_lte(x: &u32, y: &u32) -> (r: bool)
        ensures
            r == lev_lte_spec(*x, *y),
    {
        *x <= *y
    }

    /// The empty tree.
    pub fn nil<E: Engine<N, L, X>>(st: &mut E) -> (r: Self)
        ensures
            *final(st) == *old(st),
            r == Tree::<N, L, X>::Nil,
    {
        Tree::Nil
    }

    /// The tree of the single value `x`.
    pub fn leaf<E: Engine<N, L, X>>(st: &mut E, x: X) -> (r: Self)
        ensures
            *final(st) == *old(st),
            r == Tree::<N, L, X>::Leaf(x),
    {
        Tree::Leaf(x)
    }

    /// The internal node of level `lev` over `l` and `r`.
    pub fn bin<E: Engine<N, L, X>>(st: &mut E, lev: u32, l: Self, r: Self) -> (t: Self)
        ensures
            *final(st) == *old(st),
            t == Tree::Bin(lev, Box::new(l), Box::new(r)),
    {
        Tree::Bin(lev, Box::new(l), Box::new(r))
    }

    /// The internal node of level `lev` over `l` and `r` that carries the name `nm`.
    pub fn name<E: Engine<N, L, X>>(st: &mut E, nm: N, lev: u32, l: Self, r: Self) -> (t: Self)
        ensures
            *final(st) == *old(st),
            t == Tree::Name(nm, lev, Box::new(l), Box::new(r)),
    {
        Tree::Name(nm, lev, Box::new(l), Box::new(r))
    }

    /// The shared node that refers to `rc`.
    pub fn rc<E: Engine<N, L, X>>(st: &mut E, rc: Rc<Self>) -> (t: Self)
        ensures
            *final(st) == *old(st),
            t == Tree::Rc(rc),
    {
        Tree::Rc(rc)
    }

    /// The memoized node that stands for what the engine holds at `art`.
    pub fn art<E: Engine<N, L, X>>(st: &mut E, art: L) -> (t: Self)
        ensures
            *final(st) == *old(st),
            t == Tree::<N, L, X>::Art(art),
    {
        Tree::Art(art)
    }
}

impl<N: Copy, L: Copy, X: Copy> Tree<N, L, X> {
    /// A deep copy of the tree.
    pub fn duplicate(&self) -> (r: Self)
        ensures
            r == *self,
        decreases *self,
    {
        match self {
            Tree::Nil => Tree::Nil,
            Tree::Leaf(x) => Tree::Leaf(*x),
            Tree::Bin(b, l, r) => Tree::Bin(*b, Box::new(l.duplicate()), Box::new(r.duplicate())),
            Tree::Name(nm, b, l, r) => Tree::Name(*nm, *b, Box::new(l.duplicate()), Box::new(r.duplicate())),
            Tree::Rc(p) => Tree::Rc(Rc::new(p.duplicate())),
            Tree::Art(loc) => Tree::Art(*loc),
        }
    }

    /// Resolves the indirections at the top of `tree`, forcing memoized nodes
    /// through the engine, and returns the semantic node found.
    pub fn resolve<E: Engine<N, L, X>>(st: &mut E, tree: Self) -> (r: Result<Self, E::Error>)
        ensures
            final(st).store() == old(st).store(),
            r == tree_resolve(old(st).store(), tree),
            r matches Ok(node) ==> node.is_semantic(),
        decreases tree_rank(old(st).store().rank, tree), tree,
    {
        match tree {
            Tree::Rc(p) => {
                let inner = p.duplicate();
                Self::resolve(st, inner)
            },
            Tree::Art(loc) => {
                match st.force_tree(&loc) {
                    Ok(u) => Self::resolve(st, u),
                    Err(e) => Err(e),
                }
            },
            other => Ok(other),
        }
    }
}

/// Whether `outer` is `inner` behind a chain of shared and memoized nodes, each
/// memoized one standing for what the store holds at its location.
pub open spec fn tree_wraps<N, L, X, F>(s: Store<N, L, X, F>, outer: Tree<N, L, X>, inner: Tree<N, L, X>) -> bool
    decreases tree_rank(s.rank, outer), outer,
{
    outer == inner || match outer {
        Tree::Rc(p) => tree_wraps(s, *p, inner),
        Tree::Art(loc) => match s.trees[loc] {
            Ok(u) => tree_rank(s.rank, u) <= s.rank[loc] && tree_wraps(s, u, inner),
            Err(_) => false,
        },
        _ => false,
    }
}

/// A shared node resolves to what its referent resolves to.
pub proof fn lemma_tree_shared_transparent<N, L, X, F>(s: Store<N, L, X, F>, p: Rc<Tree<N, L, X>>)
    ensures
        tree_resolve(s, Tree::Rc(p)) == tree_resolve(s, *p),
{
}

/// A memoized node resolves to what the tree that the store holds for it
/// resolves to.
pub proof fn lemma_tree_memoized_transparent<N, L, X, F>(s: Store<N, L, X, F>, loc: L, t: Tree<N, L, X>)
    requires
        s.trees[loc] == Ok::<Tree<N, L, X>, F>(t),
        tree_rank(s.rank, t) <= s.rank[loc],
    ensures
        tree_resolve(s, Tree::Art(loc)) == tree_resolve(s, t),
{
}

/// Elimination does not see indirections: a tree behind any chain of shared
/// and memoized nodes resolves to the node that the tree itself resolves to, so
/// the same handler is called on the same payload.
pub proof fn lemma_tree_wrapping_transparent<N, L, X, F>(
    s: Store<N, L, X, F>,
    outer: Tree<N, L, X>,
    inner: Tree<N, L, X>,
)
    requires
        tree_wraps(s, outer, inner),
    ensures
        tree_resolve(s, outer) == tree_resolve(s, inner),
    decreases tree_rank(s.rank, outer), outer,
{
    if outer != inner {
        match outer {
            Tree::Rc(_) => lemma_tree_wrapping_transparent(s, outer.referent(), inner),
            Tree::Art(loc) => lemma_tree_wrapping_transparent(s, s.trees[loc]->Ok_0, inner),
            _ => {},
        }
    }
}

/// A tree built from the semantic constructors resolves to itself: borrowing
/// elimination shows its handlers exactly the tree that was built.
pub proof fn lemma_tree_semantic_resolves_to_itself<N, L, X, F>(s: Store<N, L, X, F>, t: Tree<N, L, X>)
    requires
        t.is_semantic(),
    ensures
        tree_resolve(s, t) == Ok::<Tree<N, L, X>, F>(t),
{
}

/// What a tree resolves to is a semantic node, so exactly one handler belongs
/// to it, provided that every memoized node on the way keeps to its rank.
pub proof fn lemma_tree_resolves_to_semantic<N, L, X, F>(s: Store<N, L, X, F>, t: Tree<N, L, X>)
    requires
        forall|loc: L| #[trigger] s.trees[loc] matches Ok(u) ==> tree_rank(s.rank, u) <= s.rank[loc],
    ensures
        tree_resolve(s, t) matches Ok(node) ==> node.is_semantic(),
    decreases tree_rank(s.rank, t), t,
{
    match t {
        Tree::Rc(_) => lemma_tree_resolves_to_semantic(s, t.referent()),
        Tree::Art(loc) => {
            if s.trees[loc] is Ok {
                lemma_tree_resolves_to_semantic(s, s.trees[loc]->Ok_0);
            }
        },
        _ => {},
    }
}

/// The level at the top of a tree that holds no leaf there is fixed by the
/// tree: two readings of it agree.
pub proof fn lemma_tree_level_fixed<N, L, X: Hash>(node: Tree<N, L, X>, v: u32, w: u32)
    requires
        !(node is Leaf),
        tree_level_is(node, v),
        tree_level_is(node, w),
    ensures
        v == w,
{
}

/// The order of levels is total: reflexive, antisymmetric, transitive, and any
/// two levels are comparable; the level of the empty tree is least.
pub proof fn lemma_lev_lte_total_order(x: u32, y: u32, z: u32)
    ensures
        lev_lte_spec(x, x),
        lev_lte_spec(x, y) && lev_lte_spec(y, x) ==> x == y,
        lev_lte_spec(x, y) && lev_lte_spec(y, z) ==> lev_lte_spec(x, z),
        lev_lte_spec(x, y) || lev_lte_spec(y, x),
        lev_lte_spec(0, x),
{
}

} // verus!
