//! Persistent lists with shared and memoized nodes, and with embedded tree
//! segments that elimination presents as runs of cons cells.

use vstd::prelude::*;
use std::rc::Rc;
use crate::engine::Engine;
use crate::engine::Store;
use crate::tree::Tree;
use crate::tree::tree_rank;

verus! {

/// The order in which the leaves of an embedded tree are consumed.
#[derive(Debug, PartialEq, Eq, Hash, Clone, Copy)]
pub enum Dir2 {
    Left,
    Right,
}

/// A persistent sequence over elements of type `X`, with names of type `N` and
/// articulation points addressed by locations of type `L`.
///
/// `Nil`, `Cons` and `Name` are what a consumer sees. `Tree` embeds a tree as a
/// run of elements, `Rc` is a shared node and `Art` a memoized one.
#[derive(Debug, PartialEq, Eq, Hash)]
pub enum List<N, L, X> {
    Nil,
    Cons(X, Box<List<N, L, X>>),
    Tree(Tree<N, L, X>, Dir2, Box<List<N, L, X>>),
    Rc(Rc<List<N, L, X>>),
    Name(N, Box<List<N, L, X>>),
    Art(L),
}

/// One more than the rank of the articulation point that elimination of `l`
/// may have to force first, or zero where there is none.
pub open spec fn list_rank<N, L, X>(rank: Map<L, nat>, l: List<N, L, X>) -> nat
    decreases l,
{
    match l {
        List::Rc(p) => list_rank(rank, *p),
        List::Tree(_, _, tl) => list_rank(rank, *tl),
        List::Art(loc) => rank[loc] + 1,
        _ => 0,
    }
}

/// The cons cells of `xs`, in order, in front of `tail`.
pub open spec fn cons_chain<N, L, X>(xs: Seq<X>, tail: List<N, L, X>) -> List<N, L, X>
    decreases xs.len(),
{
    if xs.len() == 0 {
        tail
    } else {
        List::Cons(xs[0], Box::new(cons_chain(xs.skip(1), tail)))
    }
}

/// The leaves of `t` in the order that `dir` gives: from left to right for
/// `Left`, mirrored for `Right`. Shared nodes are looked through and memoized
/// ones read from the store; names and levels leave no trace. Of two failing
/// subtrees the one consumed later decides the error. A stored tree that does
/// not keep below the rank of its location, which no engine hands out, counts
/// as empty.
pub open spec fn tree_leaves<N, L, X, F>(s: Store<N, L, X, F>, t: Tree<N, L, X>, dir: Dir2) -> Result<Seq<X>, F>
    decreases tree_rank(s.rank, t), t,
{
    match t {
        Tree::Nil => Ok(Seq::empty()),
        Tree::Leaf(x) => Ok(seq![x]),
        Tree::Bin(_, l, r) => if dir is Left {
            leaves_join(tree_leaves(s, *l, dir), tree_leaves(s, *r, dir))
        } else {
            leaves_join(tree_leaves(s, *r, dir), tree_leaves(s, *l, dir))
        },
        Tree::Name(_, _, l, r) => if dir is Left {
            leaves_join(tree_leaves(s, *l, dir), tree_leaves(s, *r, dir))
        } else {
            leaves_join(tree_leaves(s, *r, dir), tree_leaves(s, *l, dir))
        },
        Tree::Rc(p) => tree_leaves(s, *p, dir),
        Tree::Art(loc) => match s.trees[loc] {
            Ok(u) => if tree_rank(s.rank, u) <= s.rank[loc] {
                tree_leaves(s, u, dir)
            } else {
                Ok(Seq::empty())
            },
            Err(e) => Err(e),
        },
    }
}

/// The leaves of two subtrees, `first` before `second`; a failure of `second`
/// comes before one of `first`.
pub open spec fn leaves_join<X, F>(first: Result<Seq<X>, F>, second: Result<Seq<X>, F>) -> Result<Seq<X>, F> {
    match second {
        Ok(b) => match first {
            Ok(a) => Ok(a + b),
            Err(e) => Err(e),
        },
        Err(e) => Err(e),
    }
}

/// The list that stands for the segment `t` in front of `tail`: the leaves of
/// `t` as cons cells, then `tail`.
pub open spec fn tree_flat<N, L, X, F>(s: Store<N, L, X, F>, t: Tree<N, L, X>, dir: Dir2, tail: List<N, L, X>) -> Result<List<N, L, X>, F> {
    match tree_leaves(s, t, dir) {
        Ok(xs) => Ok(cons_chain(xs, tail)),
        Err(e) => Err(e),
    }
}

/// The node that a consumer of `l` sees: `Nil`, `Cons` or `Name`. Shared nodes
/// are looked through, memoized ones replaced by what the store holds, and a
/// tree segment by its leaves as cons cells.
pub open spec fn list_resolve<N, L, X, F>(s: Store<N, L, X, F>, l: List<N, L, X>) -> Result<List<N, L, X>, F>
    decreases list_rank(s.rank, l), l,
{
    match l {
        List::Rc(p) => list_resolve(s, *p),
        List::Art(loc) => match s.lists[loc] {
            Ok(u) => if list_rank(s.rank, u) <= s.rank[loc] {
                list_resolve(s, u)
            } else {
                Ok(l)
            },
            Err(e) => Err(e),
        },
        List::Tree(t, dir, tl) => match tree_leaves(s, t, dir) {
            Ok(xs) => if xs.len() == 0 {
                list_resolve(s, *tl)
            } else {
                Ok(cons_chain(xs, *tl))
            },
            Err(e) => Err(e),
        },
        _ => Ok(l),
    }
}

/// Appending to the leaves appends to the chain: the cells of `a + b` in front
/// of `tail` are the cells of `a` in front of the cells of `b` in front of
/// `tail`.
pub proof fn lemma_cons_chain_concat<N, L, X>(a: Seq<X>, b: Seq<X>, tail: List<N, L, X>)
    ensures
        cons_chain(a + b, tail) == cons_chain(a, cons_chain(b, tail)),
    decreases a.len(),
{
    if a.len() == 0 {
        assert(a + b =~= b);
    } else {
        lemma_cons_chain_concat(a.skip(1), b, tail);
        assert((a + b).skip(1) =~= a.skip(1) + b);
        assert((a + b)[0] == a[0]);
    }
}

impl<N, L, X> List<N, L, X> {
    /// What a shared node refers to; any other list itself.
    pub open spec fn referent(self) -> Self {
        match self {
            List::Rc(p) => *p,
            _ => self,
        }
    }

    /// Whether this is one of the variants that a consumer sees.
    pub open spec fn is_semantic(self) -> bool {
        self is Nil || self is Cons || self is Name
    }

    /// The empty list.
    pub fn nil<E: Engine<N, L, X>>(st: &mut E) -> (r: Self)
        ensures
            *final(st) == *old(st),
            r == List::<N, L, X>::Nil,
    {
        List::Nil
    }

    /// The list of `hd` followed by `tl`.
    pub fn cons<E: Engine<N, L, X>>(st: &mut E, hd: X, tl: Self) -> (r: Self)
        ensures
            *final(st) == *old(st),
            r == List::Cons(hd, Box::new(tl)),
    {
        List::Cons(hd, Box::new(tl))
    }

    /// The list `tl` with the name `nm` in front of it.
    pub fn name<E: Engine<N, L, X>>(st: &mut E, nm: N, tl: Self) -> (r: Self)
        ensures
            *final(st) == *old(st),
            r == List::Name(nm, Box::new(tl)),
    {
        List::Name(nm, Box::new(tl))
    }

    /// The shared node that refers to `rc`.
    pub fn rc<E: Engine<N, L, X>>(st: &mut E, rc: Rc<Self>) -> (r: Self)
        ensures
            *final(st) == *old(st),
            r == List::Rc(rc),
    {
        List::Rc(rc)
    }

    /// The memoized node that stands for what the engine holds at `art`.
    pub fn art<E: Engine<N, L, X>>(st: &mut E, art: L) -> (r: Self)
        ensures
            *final(st) == *old(st),
            r == List::<N, L, X>::Art(art),
    {
        List::Art(art)
    }

    /// The list whose first elements are the leaves of `tr`, taken in the
    /// order `dir`, and whose rest is `tl`.
    pub fn tree<E: Engine<N, L, X>>(st: &mut E, tr: Tree<N, L, X>, dir: Dir2, tl: Self) -> (r: Self)
        ensures
            *final(st) == *old(st),
            r == List::Tree(tr, dir, Box::new(tl)),
    {
        List::Tree(tr, dir, Box::new(tl))
    }
}

impl<N: Copy, L: Copy, X: Copy> List<N, L, X> {
    /// A deep copy of the list.
    pub fn duplicate(&self) -> (r: Self)
        ensures
            r == *self,
        decreases *self,
    {
        match self {
            List::Nil => List::Nil,
            List::Cons(hd, tl) => List::Cons(*hd, Box::new(tl.duplicate())),
            List::Tree(t, dir, tl) => List::Tree(t.duplicate(), *dir, Box::new(tl.duplicate())),
            List::Rc(p) => List::Rc(Rc::new(p.duplicate())),
            List::Name(nm, tl) => List::Name(*nm, Box::new(tl.duplicate())),
            List::Art(loc) => List::Art(*loc),
        }
    }

    /// Puts the leaves of `tree`, in the order `dir`, as cons cells in front of
    /// `tail`, forcing every memoized node of `tree` through the engine. The
    /// subtree consumed later is walked first.
    pub fn splice_tree<E: Engine<N, L, X>>(
        st: &mut E,
        tree: &Tree<N, L, X>,
        dir: Dir2,
        tail: Self,
    ) -> (r: Result<Self, E::Error>)
        ensures
            final(st).store() == old(st).store(),
            r == tree_flat(old(st).store(), *tree, dir, tail),
        decreases tree_rank(old(st).store().rank, *tree), *tree,
    {
        let ghost s = st.store();
        match tree {
            Tree::Nil => Ok(tail),
            Tree::Leaf(x) => {
                proof {
                    let xs = seq![*x];
                    assert(xs.skip(1).len() == 0);
                    assert(cons_chain(xs.skip(1), tail) == tail);
                }
                Ok(List::Cons(*x, Box::new(tail)))
            },
            Tree::Bin(_, l, r) => {
                let (first, second) = match dir {
                    Dir2::Left => (l, r),
                    Dir2::Right => (r, l),
                };
                match Self::splice_tree(st, &**second, dir, tail) {
                    Ok(rest) => {
                        proof {
                            let b = tree_leaves(s, **second, dir)->Ok_0;
                            if tree_leaves(s, **first, dir) is Ok {
                                lemma_cons_chain_concat(tree_leaves(s, **first, dir)->Ok_0, b, tail);
                            }
                        }
                        Self::splice_tree(st, &**first, dir, rest)
                    },
                    Err(e) => Err(e),
                }
            },
            Tree::Name(_, _, l, r) => {
                let (first, second) = match dir {
                    Dir2::Left => (l, r),
                    Dir2::Right => (r, l),
                };
                match Self::splice_tree(st, &**second, dir, tail) {
                    Ok(rest) => {
                        proof {
                            let b = tree_leaves(s, **second, dir)->Ok_0;
                            if tree_leaves(s, **first, dir) is Ok {
                                lemma_cons_chain_concat(tree_leaves(s, **first, dir)->Ok_0, b, tail);
                            }
                        }
                        Self::splice_tree(st, &**first, dir, rest)
                    },
                    Err(e) => Err(e),
                }
            },
            Tree::Rc(p) => Self::splice_tree(st, &**p, dir, tail),
            Tree::Art(loc) => match st.force_tree(loc) {
                Ok(u) => Self::splice_tree(st, &u, dir, tail),
                Err(e) => Err(e),
            },
        }
    }

    /// Resolves what stands at the head of `list`: looks through shared nodes,
    /// forces memoized ones through the engine and replaces a tree segment by
    /// its cons cells. Returns the node that a consumer sees.
    pub fn resolve<E: Engine<N, L, X>>(st: &mut E, list: Self) -> (r: Result<Self, E::Error>)
        ensures
            final(st).store() == old(st).store(),
            r == list_resolve(old(st).store(), list),
            r matches Ok(node) ==> node.is_semantic(),
        decreases list_rank(old(st).store().rank, list), list,
    {
        match list {
            List::Rc(p) => {
                let inner = p.duplicate();
                Self::resolve(st, inner)
            },
            List::Art(loc) => match st.force_list(&loc) {
                Ok(u) => Self::resolve(st, u),
                Err(e) => Err(e),
            },
            List::Tree(t, dir, tl) => match Self::splice_tree(st, &t, dir, *tl) {
                Ok(List::Cons(hd, rest)) => {
                    proof {
                        let xs = tree_leaves(old(st).store(), t, dir)->Ok_0;
                        if xs.len() == 0 {
                            assert(cons_chain(xs, *tl) == *tl);
                            assert(list_resolve(old(st).store(), *tl) == Ok::<Self, E::Error>(*tl));
                        }
                    }
                    Ok(List::Cons(hd, rest))
                },
                Ok(other) => {
                    proof {
                        let xs = tree_leaves(old(st).store(), t, dir)->Ok_0;
                        assert(xs.len() == 0 && other == *tl) by {
                            if xs.len() != 0 {
                                assert(cons_chain(xs, *tl) is Cons);
                            }
                        }
                    }
                    Self::resolve(st, other)
                },
                Err(e) => Err(e),
            },
            other => Ok(other),
        }
    }
}

/// Whether `outer` is `inner` behind a chain of shared and memoized nodes, each
/// memoized one standing for what the store holds at its location.
pub open spec fn list_wraps<N, L, X, F>(s: Store<N, L, X, F>, outer: List<N, L, X>, inner: List<N, L, X>) -> bool
    decreases list_rank(s.rank, outer), outer,
{
    outer == inner || match outer {
        List::Rc(p) => list_wraps(s, *p, inner),
        List::Art(loc) => match s.lists[loc] {
            Ok(u) => list_rank(s.rank, u) <= s.rank[loc] && list_wraps(s, u, inner),
            Err(_) => false,
        },
        _ => false,
    }
}

/// A shared node resolves to what its referent resolves to.
pub proof fn lemma_list_shared_transparent<N, L, X, F>(s: Store<N, L, X, F>, p: Rc<List<N, L, X>>)
    ensures
        list_resolve(s, List::Rc(p)) == list_resolve(s, *p),
{
}

/// A memoized node resolves to what the list that the store holds for it
/// resolves to.
pub proof fn lemma_list_memoized_transparent<N, L, X, F>(s: Store<N, L, X, F>, loc: L, l: List<N, L, X>)
    requires
        s.lists[loc] == Ok::<List<N, L, X>, F>(l),
        list_rank(s.rank, l) <= s.rank[loc],
    ensures
        list_resolve(s, List::Art(loc)) == list_resolve(s, l),
{
}

/// Elimination does not see indirections: a list behind any chain of shared
/// and memoized nodes resolves to the node that the list itself resolves to, so
/// the same handler is called on the same payload.
pub proof fn lemma_list_wrapping_transparent<N, L, X, F>(
    s: Store<N, L, X, F>,
    outer: List<N, L, X>,
    inner: List<N, L, X>,
)
    requires
        list_wraps(s, outer, inner),
    ensures
        list_resolve(s, outer) == list_resolve(s, inner),
    decreases list_rank(s.rank, outer), outer,
{
    if outer != inner {
        match outer {
            List::Rc(_) => lemma_list_wrapping_transparent(s, outer.referent(), inner),
            List::Art(loc) => lemma_list_wrapping_transparent(s, s.lists[loc]->Ok_0, inner),
            _ => {},
        }
    }
}

/// A list that starts with `Nil`, `Cons` or `Name` resolves to itself.
pub proof fn lemma_list_semantic_resolves_to_itself<N, L, X, F>(s: Store<N, L, X, F>, l: List<N, L, X>)
    requires
        l.is_semantic(),
    ensures
        list_resolve(s, l) == Ok::<List<N, L, X>, F>(l),
{
}

/// A tree segment cannot be told from its cons cells: the segment of `t` in
/// front of `tail` resolves to what the chain of the leaves of `t`, in the
/// order `dir`, in front of `tail` resolves to, and fails where reading the
/// leaves fails.
pub proof fn lemma_tree_segment_is_cons_chain<N, L, X, F>(
    s: Store<N, L, X, F>,
    t: Tree<N, L, X>,
    dir: Dir2,
    tail: List<N, L, X>,
)
    ensures
        list_resolve(s, List::Tree(t, dir, Box::new(tail))) == match tree_leaves(s, t, dir) {
            Ok(xs) => list_resolve(s, cons_chain(xs, tail)),
            Err(e) => Err(e),
        },
{
    if let Ok(xs) = tree_leaves(s, t, dir) {
        if xs.len() != 0 {
            assert(cons_chain(xs, tail) is Cons);
        }
    }
}

/// Shared and memoized nodes inside a tree leave no trace among its leaves.
pub proof fn lemma_leaves_wrapping_transparent<N, L, X, F>(
    s: Store<N, L, X, F>,
    outer: Tree<N, L, X>,
    inner: Tree<N, L, X>,
    dir: Dir2,
)
    requires
        crate::tree::tree_wraps(s, outer, inner),
    ensures
        tree_leaves(s, outer, dir) == tree_leaves(s, inner, dir),
    decreases tree_rank(s.rank, outer), outer,
{
    if outer != inner {
        match outer {
            Tree::Rc(_) => lemma_leaves_wrapping_transparent(s, outer.referent(), inner, dir),
            Tree::Art(loc) => lemma_leaves_wrapping_transparent(s, s.trees[loc]->Ok_0, inner, dir),
            _ => {},
        }
    }
}

/// The order `Right` mirrors the order `Left`: where the leaves can be read
/// from left to right, reading them the other way gives the same leaves
/// reversed.
pub proof fn lemma_leaves_right_mirrors_left<N, L, X, F>(s: Store<N, L, X, F>, t: Tree<N, L, X>)
    ensures
        tree_leaves(s, t, Dir2::Left) matches Ok(xs) ==> tree_leaves(s, t, Dir2::Right) == Ok::<Seq<X>, F>(
            xs.reverse(),
        ),
    decreases tree_rank(s.rank, t), t,
{
    match t {
        Tree::Nil => {
            assert(Seq::<X>::empty().reverse() =~= Seq::<X>::empty());
        },
        Tree::Leaf(x) => {
            assert(seq![x].reverse() =~= seq![x]);
        },
        Tree::Bin(_, l, r) => {
            lemma_leaves_right_mirrors_left(s, *l);
            lemma_leaves_right_mirrors_left(s, *r);
            if let Ok(a) = tree_leaves(s, *l, Dir2::Left) {
                if let Ok(b) = tree_leaves(s, *r, Dir2::Left) {
                    assert((a + b).reverse() =~= b.reverse() + a.reverse());
                }
            }
        },
        Tree::Name(_, _, l, r) => {
            lemma_leaves_right_mirrors_left(s, *l);
            lemma_leaves_right_mirrors_left(s, *r);
            if let Ok(a) = tree_leaves(s, *l, Dir2::Left) {
                if let Ok(b) = tree_leaves(s, *r, Dir2::Left) {
                    assert((a + b).reverse() =~= b.reverse() + a.reverse());
                }
            }
        },
        Tree::Rc(_) => lemma_leaves_right_mirrors_left(s, t.referent()),
        Tree::Art(loc) => {
            if let Ok(u) = s.trees[loc] {
                if tree_rank(s.rank, u) <= s.rank[loc] {
                    lemma_leaves_right_mirrors_left(s, u);
                } else {
                    assert(Seq::<X>::empty().reverse() =~= Seq::<X>::empty());
                }
            }
        },
    }
}

} // verus!
