//! Elimination of trees: structural dispatch that resolves shared and
//! memoized nodes before any handler sees the tree.

use vstd::prelude::*;
use std::hash::Hash;
use crate::engine::Engine;
use crate::level::content_hash;
use crate::level::lev_of_hash;
use crate::tree::Tree;
use crate::tree::tree_level_is;
use crate::tree::tree_rank;
use crate::tree::tree_resolve;

verus! {

/// Whether the handler that belongs to `node` may be called with the engine
/// behind `m` and the node's payload.
pub open spec fn tree_accepts<E, N, L, X, Res, NilC, LeafC, BinC, NameC>(
    m: &mut E,
    node: Tree<N, L, X>,
    nil: NilC,
    leaf: LeafC,
    bin: BinC,
    name: NameC,
) -> bool where
    NilC: FnOnce(&mut E) -> Res,
    LeafC: FnOnce(&mut E, X) -> Res,
    BinC: FnOnce(&mut E, u32, Tree<N, L, X>, Tree<N, L, X>) -> Res,
    NameC: FnOnce(&mut E, N, u32, Tree<N, L, X>, Tree<N, L, X>) -> Res,
 {
    match node {
        Tree::Nil => nil.requires((m,)),
        Tree::Leaf(x) => leaf.requires((m, x)),
        Tree::Bin(b, l, r) => bin.requires((m, b, *l, *r)),
        Tree::Name(nm, b, l, r) => name.requires((m, nm, b, *l, *r)),
        _ => true,
    }
}

/// That `out` is what the one handler that belongs to `node` returns when it is
/// called with the engine behind `m` and the node's payload. No handler
/// belongs to a shared or memoized node.
pub open spec fn tree_fires<E, N, L, X, Res, NilC, LeafC, BinC, NameC>(
    m: &mut E,
    node: Tree<N, L, X>,
    nil: NilC,
    leaf: LeafC,
    bin: BinC,
    name: NameC,
    out: Res,
) -> bool where
    NilC: FnOnce(&mut E) -> Res,
    LeafC: FnOnce(&mut E, X) -> Res,
    BinC: FnOnce(&mut E, u32, Tree<N, L, X>, Tree<N, L, X>) -> Res,
    NameC: FnOnce(&mut E, N, u32, Tree<N, L, X>, Tree<N, L, X>) -> Res,
 {
    match node {
        Tree::Nil => nil.ensures((m,), out),
        Tree::Leaf(x) => leaf.ensures((m, x), out),
        Tree::Bin(b, l, r) => bin.ensures((m, b, *l, *r), out),
        Tree::Name(nm, b, l, r) => name.ensures((m, nm, b, *l, *r), out),
        _ => false,
    }
}

/// As [`tree_accepts`], for handlers that also take a threaded argument.
pub open spec fn tree_accepts_move<E, N, L, X, Arg, Res, NilC, LeafC, BinC, NameC>(
    m: &mut E,
    node: Tree<N, L, X>,
    arg: Arg,
    nil: NilC,
    leaf: LeafC,
    bin: BinC,
    name: NameC,
) -> bool where
    NilC: FnOnce(&mut E, Arg) -> Res,
    LeafC: FnOnce(&mut E, X, Arg) -> Res,
    BinC: FnOnce(&mut E, u32, Tree<N, L, X>, Tree<N, L, X>, Arg) -> Res,
    NameC: FnOnce(&mut E, N, u32, Tree<N, L, X>, Tree<N, L, X>, Arg) -> Res,
 {
    match node {
        Tree::Nil => nil.requires((m, arg)),
        Tree::Leaf(x) => leaf.requires((m, x, arg)),
        Tree::Bin(b, l, r) => bin.requires((m, b, *l, *r, arg)),
        Tree::Name(nm, b, l, r) => name.requires((m, nm, b, *l, *r, arg)),
        _ => true,
    }
}

/// As [`tree_fires`], for handlers that also take a threaded argument.
pub open spec fn tree_fires_move<E, N, L, X, Arg, Res, NilC, LeafC, BinC, NameC>(
    m: &mut E,
    node: Tree<N, L, X>,
    arg: Arg,
    nil: NilC,
    leaf: LeafC,
    bin: BinC,
    name: NameC,
    out: Res,
) -> bool where
    NilC: FnOnce(&mut E, Arg) -> Res,
    LeafC: FnOnce(&mut E, X, Arg) -> Res,
    BinC: FnOnce(&mut E, u32, Tree<N, L, X>, Tree<N, L, X>, Arg) -> Res,
    NameC: FnOnce(&mut E, N, u32, Tree<N, L, X>, Tree<N, L, X>, Arg) -> Res,
 {
    match node {
        Tree::Nil => nil.ensures((m, arg), out),
        Tree::Leaf(x) => leaf.ensures((m, x, arg), out),
        Tree::Bin(b, l, r) => bin.ensures((m, b, *l, *r, arg), out),
        Tree::Name(nm, b, l, r) => name.ensures((m, nm, b, *l, *r, arg), out),
        _ => false,
    }
}

/// As [`tree_accepts`], for handlers that borrow the payload.
pub open spec fn tree_accepts_ref<E, N, L, X, Res, NilC, LeafC, BinC, NameC>(
    m: &mut E,
    node: Tree<N, L, X>,
    nil: NilC,
    leaf: LeafC,
    bin: BinC,
    name: NameC,
) -> bool where
    NilC: FnOnce(&mut E) -> Res,
    LeafC: FnOnce(&mut E, &X) -> Res,
    BinC: FnOnce(&mut E, &u32, &Tree<N, L, X>, &Tree<N, L, X>) -> Res,
    NameC: FnOnce(&mut E, &N, &u32, &Tree<N, L, X>, &Tree<N, L, X>) -> Res,
 {
    match node {
        Tree::Nil => nil.requires((m,)),
        Tree::Leaf(x) => leaf.requires((m, &x)),
        Tree::Bin(b, l, r) => bin.requires((m, &b, &*l, &*r)),
        Tree::Name(nm, b, l, r) => name.requires((m, &nm, &b, &*l, &*r)),
        _ => true,
    }
}

/// As [`tree_fires`], for handlers that borrow the payload.
pub open spec fn tree_fires_ref<E, N, L, X, Res, NilC, LeafC, BinC, NameC>(
    m: &mut E,
    node: Tree<N, L, X>,
    nil: NilC,
    leaf: LeafC,
    bin: BinC,
    name: NameC,
    out: Res,
) -> bool where
    NilC: FnOnce(&mut E) -> Res,
    LeafC: FnOnce(&mut E, &X) -> Res,
    BinC: FnOnce(&mut E, &u32, &Tree<N, L, X>, &Tree<N, L, X>) -> Res,
    NameC: FnOnce(&mut E, &N, &u32, &Tree<N, L, X>, &Tree<N, L, X>) -> Res,
 {
    match node {
        Tree::Nil => nil.ensures((m,), out),
        Tree::Leaf(x) => leaf.ensures((m, &x), out),
        Tree::Bin(b, l, r) => bin.ensures((m, &b, &*l, &*r), out),
        Tree::Name(nm, b, l, r) => name.ensures((m, &nm, &b, &*l, &*r), out),
        _ => false,
    }
}

fn level_of_nil<E>(st: &mut E) -> (v: u32)
    ensures
        v == 0,
        *final(st) == *old(st),
{
    0
}

fn level_of_leaf<E, X: Hash>(st: &mut E, x: &X) -> (v: u32)
    ensures
        crate::level::is_level_of(x, v),
        v <= 64,
        *final(st) == *old(st),
{
    lev_of_hash(content_hash(x))
}

fn level_of_bin<E, N, L, X>(st: &mut E, b: &u32, _l: &Tree<N, L, X>, _r: &Tree<N, L, X>) -> (v: u32)
    ensures
        v == *b,
        *final(st) == *old(st),
{
    *b
}

fn level_of_name<E, N, L, X>(st: &mut E, _nm: &N, b: &u32, _l: &Tree<N, L, X>, _r: &Tree<N, L, X>) -> (v:
    u32)
    ensures
        v == *b,
        *final(st) == *old(st),
{
    *b
}

impl<N, L, X> Tree<N, L, X> {
    /// As [`Tree::dispatch`], on a borrowed node, for handlers that borrow the
    /// payload.
    pub fn dispatch_ref<E, Res, NilC, LeafC, BinC, NameC>(
        st: &mut E,
        node: &Self,
        nil: NilC,
        leaf: LeafC,
        bin: BinC,
        name: NameC,
    ) -> (out: Res) where
        E: Engine<N, L, X>,
        NilC: FnOnce(&mut E) -> Res,
        LeafC: FnOnce(&mut E, &X) -> Res,
        BinC: FnOnce(&mut E, &u32, &Self, &Self) -> Res,
        NameC: FnOnce(&mut E, &N, &u32, &Self, &Self) -> Res,

        requires
            node.is_semantic(),
            forall|m: &mut E|
                (*m).store() == old(st).store() ==> #[trigger] tree_accepts_ref(m, *node, nil, leaf, bin, name),
        ensures
            exists|m: &mut E|
                (*m).store() == old(st).store() && *final(m) == *final(st) && #[trigger] tree_fires_ref(
                    m,
                    *node,
                    nil,
                    leaf,
                    bin,
                    name,
                    out,
                ),
    {
        let ghost g = *node;
        match node {
            Tree::Leaf(x) => {
                proof {
                    assert forall|m: &mut E| (*m).store() == st.store() implies #[trigger] leaf.requires(
                        (m, &g->Leaf_0),
                    ) by {
                        assert(tree_accepts_ref(m, g, nil, leaf, bin, name));
                    }
                }
                let out = leaf(st, x);
                proof {
                    let w = choose|m: &mut E|
                        (*m).store() == old(st).store() && *final(m) == *st && #[trigger] leaf.ensures(
                            (m, &g->Leaf_0),
                            out,
                        );
                    assert(tree_fires_ref(w, g, nil, leaf, bin, name, out));
                }
                out
            },
            Tree::Bin(b, l, r) => {
                proof {
                    assert forall|m: &mut E| (*m).store() == st.store() implies #[trigger] bin.requires(
                        (m, &g->Bin_0, &*g->Bin_1, &*g->Bin_2),
                    ) by {
                        assert(tree_accepts_ref(m, g, nil, leaf, bin, name));
                    }
                }
                let out = bin(st, b, &**l, &**r);
                proof {
                    let w = choose|m: &mut E|
                        (*m).store() == old(st).store() && *final(m) == *st && #[trigger] bin.ensures(
                            (m, &g->Bin_0, &*g->Bin_1, &*g->Bin_2),
                            out,
                        );
                    assert(tree_fires_ref(w, g, nil, leaf, bin, name, out));
                }
                out
            },
            Tree::Name(nm, b, l, r) => {
                proof {
                    assert forall|m: &mut E| (*m).store() == st.store() implies #[trigger] name.requires(
                        (m, &g->Name_0, &g->Name_1, &*g->Name_2, &*g->Name_3),
                    ) by {
                        assert(tree_accepts_ref(m, g, nil, leaf, bin, name));
                    }
                }
                let out = name(st, nm, b, &**l, &**r);
                proof {
                    let w = choose|m: &mut E|
                        (*m).store() == old(st).store() && *final(m) == *st && #[trigger] name.ensures(
                            (m, &g->Name_0, &g->Name_1, &*g->Name_2, &*g->Name_3),
                            out,
                        );
                    assert(tree_fires_ref(w, g, nil, leaf, bin, name, out));
                }
                out
            },
            _ => {
                proof {
                    assert forall|m: &mut E| (*m).store() == st.store() implies #[trigger] nil.requires(
                        (m,),
                    ) by {
                        assert(tree_accepts_ref(m, g, nil, leaf, bin, name));
                    }
                }
                let out = nil(st);
                proof {
                    let w = choose|m: &mut E|
                        (*m).store() == old(st).store() && *final(m) == *st && #[trigger] nil.ensures(
                            (m,),
                            out,
                        );
                    assert(tree_fires_ref(w, g, nil, leaf, bin, name, out));
                }
                out
            },
        }
    }

    /// Eliminates `tree` without consuming it: resolves the indirections at its
    /// top, then calls the one handler that belongs to the node found, with the
    /// engine and the borrowed payload. A failed force is returned as it came,
    /// and no handler is called.
    pub fn elim_ref<E, Res, NilC, LeafC, BinC, NameC>(
        st: &mut E,
        tree: &Self,
        nil: NilC,
        leaf: LeafC,
        bin: BinC,
        name: NameC,
    ) -> (r: Result<Res, E::Error>) where
        E: Engine<N, L, X>,
        NilC: FnOnce(&mut E) -> Res,
        LeafC: FnOnce(&mut E, &X) -> Res,
        BinC: FnOnce(&mut E, &u32, &Self, &Self) -> Res,
        NameC: FnOnce(&mut E, &N, &u32, &Self, &Self) -> Res,

        requires
            tree_resolve(old(st).store(), *tree) matches Ok(node) ==> forall|m: &mut E|
                (*m).store() == old(st).store() ==> #[trigger] tree_accepts_ref(m, node, nil, leaf, bin, name),
        ensures
            tree_resolve(old(st).store(), *tree) matches Err(e) ==> r == Err::<Res, E::Error>(e)
                && final(st).store() == old(st).store(),
            tree_resolve(old(st).store(), *tree) matches Ok(node) ==> r is Ok && exists|m: &mut E|
                (*m).store() == old(st).store() && *final(m) == *final(st) && #[trigger] tree_fires_ref(
                    m,
                    node,
                    nil,
                    leaf,
                    bin,
                    name,
                    r->Ok_0,
                ),
        decreases tree_rank(old(st).store().rank, *tree), *tree,
    {
        let ghost target = tree_resolve(st.store(), *tree);
        match tree {
            Tree::Rc(p) => {
                let r = Self::elim_ref(st, &**p, nil, leaf, bin, name);
                proof {
                    if target is Ok {
                        let g = target->Ok_0;
                        let w = choose|m: &mut E|
                            (*m).store() == old(st).store() && *final(m) == *st && #[trigger] tree_fires_ref(
                                m,
                                g,
                                nil,
                                leaf,
                                bin,
                                name,
                                r->Ok_0,
                            );
                        assert(tree_fires_ref(w, g, nil, leaf, bin, name, r->Ok_0));
                        assert(exists|m: &mut E|
                            (*m).store() == old(st).store() && *final(m) == *final(st) && #[trigger] tree_fires_ref(
                                m,
                                g,
                                nil,
                                leaf,
                                bin,
                                name,
                                r->Ok_0,
                            ));
                    }
                }
                r
            },
            Tree::Art(loc) => match st.force_tree(loc) {
                Ok(u) => {
                    let r = Self::elim_ref(st, &u, nil, leaf, bin, name);
                    proof {
                        if target is Ok {
                            let g = target->Ok_0;
                            let w = choose|m: &mut E|
                                (*m).store() == old(st).store() && *final(m) == *st && #[trigger] tree_fires_ref(
                                    m,
                                    g,
                                    nil,
                                    leaf,
                                    bin,
                                    name,
                                    r->Ok_0,
                                );
                            assert(tree_fires_ref(w, g, nil, leaf, bin, name, r->Ok_0));
                            assert(exists|m: &mut E|
                                (*m).store() == old(st).store() && *final(m) == *final(st) && #[trigger] tree_fires_ref(
                                    m,
                                    g,
                                    nil,
                                    leaf,
                                    bin,
                                    name,
                                    r->Ok_0,
                                ));
                        }
                    }
                    r
                },
                Err(e) => Err(e),
            },
            _ => {
                let out = Self::dispatch_ref(st, tree, nil, leaf, bin, name);
                let r = Ok(out);
                proof {
                    let w = choose|m: &mut E|
                        (*m).store() == old(st).store() && *final(m) == *st && #[trigger] tree_fires_ref(
                            m,
                            *tree,
                            nil,
                            leaf,
                            bin,
                            name,
                            r->Ok_0,
                        );
                    assert(tree_fires_ref(w, *tree, nil, leaf, bin, name, r->Ok_0));
                    assert(exists|m: &mut E|
                        (*m).store() == old(st).store() && *final(m) == *final(st) && #[trigger] tree_fires_ref(
                            m,
                            *tree,
                            nil,
                            leaf,
                            bin,
                            name,
                            r->Ok_0,
                        ));
                }
                r
            },
        }
    }

    /// The level at the top of `tree`, once its indirections are resolved. The
    /// level of an internal node is the one it was built with.
    pub fn lev_of_tree<E: Engine<N, L, X>>(st: &mut E, tree: &Self) -> (r: Result<u32, E::Error>) where
        X: Hash,

        ensures
            final(st).store() == old(st).store(),
            match tree_resolve(old(st).store(), *tree) {
                Ok(node) => r matches Ok(v) && tree_level_is(node, v),
                Err(e) => r == Err::<u32, E::Error>(e),
            },
    {
        Self::elim_ref(
            st,
            tree,
            level_of_nil::<E>,
            level_of_leaf::<E, X>,
            level_of_bin::<E, N, L, X>,
            level_of_name::<E, N, L, X>,
        )
    }
}

impl<N: Copy, L: Copy, X: Copy> Tree<N, L, X> {
    /// Calls the one handler that belongs to the semantic node `node`, with the
    /// engine and the node's payload.
    pub fn dispatch<E, Res, NilC, LeafC, BinC, NameC>(
        st: &mut E,
        node: Self,
        nil: NilC,
        leaf: LeafC,
        bin: BinC,
        name: NameC,
    ) -> (out: Res) where
        E: Engine<N, L, X>,
        NilC: FnOnce(&mut E) -> Res,
        LeafC: FnOnce(&mut E, X) -> Res,
        BinC: FnOnce(&mut E, u32, Self, Self) -> Res,
        NameC: FnOnce(&mut E, N, u32, Self, Self) -> Res,

        requires
            node.is_semantic(),
            forall|m: &mut E|
                (*m).store() == old(st).store() ==> #[trigger] tree_accepts(m, node, nil, leaf, bin, name),
        ensures
            exists|m: &mut E|
                (*m).store() == old(st).store() && *final(m) == *final(st) && #[trigger] tree_fires(
                    m,
                    node,
                    nil,
                    leaf,
                    bin,
                    name,
                    out,
                ),
    {
        let ghost g = node;
        match node {
            Tree::Leaf(x) => {
                proof {
                    assert forall|m: &mut E| (*m).store() == st.store() implies #[trigger] leaf.requires(
                        (m, g->Leaf_0),
                    ) by {
                        assert(tree_accepts(m, g, nil, leaf, bin, name));
                    }
                }
                let out = leaf(st, x);
                proof {
                    let w = choose|m: &mut E|
                        (*m).store() == old(st).store() && *final(m) == *st && #[trigger] leaf.ensures(
                            (m, g->Leaf_0),
                            out,
                        );
                    assert(tree_fires(w, g, nil, leaf, bin, name, out));
                }
                out
            },
            Tree::Bin(b, l, r) => {
                proof {
                    assert forall|m: &mut E| (*m).store() == st.store() implies #[trigger] bin.requires(
                        (m, g->Bin_0, *g->Bin_1, *g->Bin_2),
                    ) by {
                        assert(tree_accepts(m, g, nil, leaf, bin, name));
                    }
                }
                let out = bin(st, b, *l, *r);
                proof {
                    let w = choose|m: &mut E|
                        (*m).store() == old(st).store() && *final(m) == *st && #[trigger] bin.ensures(
                            (m, g->Bin_0, *g->Bin_1, *g->Bin_2),
                            out,
                        );
                    assert(tree_fires(w, g, nil, leaf, bin, name, out));
                }
                out
            },
            Tree::Name(nm, b, l, r) => {
                proof {
                    assert forall|m: &mut E| (*m).store() == st.store() implies #[trigger] name.requires(
                        (m, g->Name_0, g->Name_1, *g->Name_2, *g->Name_3),
                    ) by {
                        assert(tree_accepts(m, g, nil, leaf, bin, name));
                    }
                }
                let out = name(st, nm, b, *l, *r);
                proof {
                    let w = choose|m: &mut E|
                        (*m).store() == old(st).store() && *final(m) == *st && #[trigger] name.ensures(
                            (m, g->Name_0, g->Name_1, *g->Name_2, *g->Name_3),
                            out,
                        );
                    assert(tree_fires(w, g, nil, leaf, bin, name, out));
                }
                out
            },
            _ => {
                proof {
                    assert forall|m: &mut E| (*m).store() == st.store() implies #[trigger] nil.requires(
                        (m,),
                    ) by {
                        assert(tree_accepts(m, g, nil, leaf, bin, name));
                    }
                }
                let out = nil(st);
                proof {
                    let w = choose|m: &mut E|
                        (*m).store() == old(st).store() && *final(m) == *st && #[trigger] nil.ensures(
                            (m,),
                            out,
                        );
                    assert(tree_fires(w, g, nil, leaf, bin, name, out));
                }
                out
            },
        }
    }

    /// As [`Tree::dispatch`], handing `arg` on to the handler that is called.
    pub fn dispatch_move<E, Arg, Res, NilC, LeafC, BinC, NameC>(
        st: &mut E,
        node: Self,
        arg: Arg,
        nil: NilC,
        leaf: LeafC,
        bin: BinC,
        name: NameC,
    ) -> (out: Res) where
        E: Engine<N, L, X>,
        NilC: FnOnce(&mut E, Arg) -> Res,
        LeafC: FnOnce(&mut E, X, Arg) -> Res,
        BinC: FnOnce(&mut E, u32, Self, Self, Arg) -> Res,
        NameC: FnOnce(&mut E, N, u32, Self, Self, Arg) -> Res,

        requires
            node.is_semantic(),
            forall|m: &mut E|
                (*m).store() == old(st).store() ==> #[trigger] tree_accepts_move(m, node, arg, nil, leaf, bin, name),
        ensures
            exists|m: &mut E|
                (*m).store() == old(st).store() && *final(m) == *final(st) && #[trigger] tree_fires_move(
                    m,
                    node,
                    arg,
                    nil,
                    leaf,
                    bin,
                    name,
                    out,
                ),
    {
        let ghost g = node;
        let ghost a = arg;
        match node {
            Tree::Leaf(x) => {
                proof {
                    assert forall|m: &mut E| (*m).store() == st.store() implies #[trigger] leaf.requires(
                        (m, g->Leaf_0, a),
                    ) by {
                        assert(tree_accepts_move(m, g, a, nil, leaf, bin, name));
                    }
                }
                let out = leaf(st, x, arg);
                proof {
                    let w = choose|m: &mut E|
                        (*m).store() == old(st).store() && *final(m) == *st && #[trigger] leaf.ensures(
                            (m, g->Leaf_0, a),
                            out,
                        );
                    assert(tree_fires_move(w, g, a, nil, leaf, bin, name, out));
                }
                out
            },
            Tree::Bin(b, l, r) => {
                proof {
                    assert forall|m: &mut E| (*m).store() == st.store() implies #[trigger] bin.requires(
                        (m, g->Bin_0, *g->Bin_1, *g->Bin_2, a),
                    ) by {
                        assert(tree_accepts_move(m, g, a, nil, leaf, bin, name));
                    }
                }
                let out = bin(st, b, *l, *r, arg);
                proof {
                    let w = choose|m: &mut E|
                        (*m).store() == old(st).store() && *final(m) == *st && #[trigger] bin.ensures(
                            (m, g->Bin_0, *g->Bin_1, *g->Bin_2, a),
                            out,
                        );
                    assert(tree_fires_move(w, g, a, nil, leaf, bin, name, out));
                }
                out
            },
            Tree::Name(nm, b, l, r) => {
                proof {
                    assert forall|m: &mut E| (*m).store() == st.store() implies #[trigger] name.requires(
                        (m, g->Name_0, g->Name_1, *g->Name_2, *g->Name_3, a),
                    ) by {
                        assert(tree_accepts_move(m, g, a, nil, leaf, bin, name));
                    }
                }
                let out = name(st, nm, b, *l, *r, arg);
                proof {
                    let w = choose|m: &mut E|
                        (*m).store() == old(st).store() && *final(m) == *st && #[trigger] name.ensures(
                            (m, g->Name_0, g->Name_1, *g->Name_2, *g->Name_3, a),
                            out,
                        );
                    assert(tree_fires_move(w, g, a, nil, leaf, bin, name, out));
                }
                out
            },
            _ => {
                proof {
                    assert forall|m: &mut E| (*m).store() == st.store() implies #[trigger] nil.requires(
                        (m, a),
                    ) by {
                        assert(tree_accepts_move(m, g, a, nil, leaf, bin, name));
                    }
                }
                let out = nil(st, arg);
                proof {
                    let w = choose|m: &mut E|
                        (*m).store() == old(st).store() && *final(m) == *st && #[trigger] nil.ensures(
                            (m, a),
                            out,
                        );
                    assert(tree_fires_move(w, g, a, nil, leaf, bin, name, out));
                }
                out
            },
        }
    }

    /// Eliminates `tree`: resolves the indirections at its top, then calls the
    /// one handler that belongs to the node found, with the engine and the
    /// node's payload. A failed force is returned as it came, and no handler is
    /// called.
    pub fn elim<E, Res, NilC, LeafC, BinC, NameC>(
        st: &mut E,
        tree: Self,
        nil: NilC,
        leaf: LeafC,
        bin: BinC,
        name: NameC,
    ) -> (r: Result<Res, E::Error>) where
        E: Engine<N, L, X>,
        NilC: FnOnce(&mut E) -> Res,
        LeafC: FnOnce(&mut E, X) -> Res,
        BinC: FnOnce(&mut E, u32, Self, Self) -> Res,
        NameC: FnOnce(&mut E, N, u32, Self, Self) -> Res,

        requires
            tree_resolve(old(st).store(), tree) matches Ok(node) ==> forall|m: &mut E|
                (*m).store() == old(st).store() ==> #[trigger] tree_accepts(m, node, nil, leaf, bin, name),
        ensures
            tree_resolve(old(st).store(), tree) matches Err(e) ==> r == Err::<Res, E::Error>(e)
                && final(st).store() == old(st).store(),
            tree_resolve(old(st).store(), tree) matches Ok(node) ==> r is Ok && exists|m: &mut E|
                (*m).store() == old(st).store() && *final(m) == *final(st) && #[trigger] tree_fires(
                    m,
                    node,
                    nil,
                    leaf,
                    bin,
                    name,
                    r->Ok_0,
                ),
    {
        match Self::resolve(st, tree) {
            Ok(node) => {
                let ghost g = node;
                let out = Self::dispatch(st, node, nil, leaf, bin, name);
                let r = Ok(out);
                proof {
                    let w = choose|m: &mut E|
                        (*m).store() == old(st).store() && *final(m) == *st && #[trigger] tree_fires(
                            m,
                            g,
                            nil,
                            leaf,
                            bin,
                            name,
                            r->Ok_0,
                        );
                    assert(tree_fires(w, g, nil, leaf, bin, name, r->Ok_0));
                    assert(exists|m: &mut E|
                        (*m).store() == old(st).store() && *final(m) == *final(st) && #[trigger] tree_fires(
                            m,
                            g,
                            nil,
                            leaf,
                            bin,
                            name,
                            r->Ok_0,
                        ));
                }
                r
            },
            Err(e) => Err(e),
        }
    }

    /// As [`Tree::elim`], handing `arg` on to the handler that is called.
    pub fn elim_move<E, Arg, Res, NilC, LeafC, BinC, NameC>(
        st: &mut E,
        tree: Self,
        arg: Arg,
        nil: NilC,
        leaf: LeafC,
        bin: BinC,
        name: NameC,
    ) -> (r: Result<Res, E::Error>) where
        E: Engine<N, L, X>,
        NilC: FnOnce(&mut E, Arg) -> Res,
        LeafC: FnOnce(&mut E, X, Arg) -> Res,
        BinC: FnOnce(&mut E, u32, Self, Self, Arg) -> Res,
        NameC: FnOnce(&mut E, N, u32, Self, Self, Arg) -> Res,

        requires
            tree_resolve(old(st).store(), tree) matches Ok(node) ==> forall|m: &mut E|
                (*m).store() == old(st).store() ==> #[trigger] tree_accepts_move(m, node, arg, nil, leaf, bin, name),
        ensures
            tree_resolve(old(st).store(), tree) matches Err(e) ==> r == Err::<Res, E::Error>(e)
                && final(st).store() == old(st).store(),
            tree_resolve(old(st).store(), tree) matches Ok(node) ==> r is Ok && exists|m: &mut E|
                (*m).store() == old(st).store() && *final(m) == *final(st) && #[trigger] tree_fires_move(
                    m,
                    node,
                    arg,
                    nil,
                    leaf,
                    bin,
                    name,
                    r->Ok_0,
                ),
    {
        let ghost a = arg;
        match Self::resolve(st, tree) {
            Ok(node) => {
                let ghost g = node;
                let out = Self::dispatch_move(st, node, arg, nil, leaf, bin, name);
                let r = Ok(out);
                proof {
                    let w = choose|m: &mut E|
                        (*m).store() == old(st).store() && *final(m) == *st && #[trigger] tree_fires_move(
                            m,
                            g,
                            a,
                            nil,
                            leaf,
                            bin,
                            name,
                            r->Ok_0,
                        );
                    assert(tree_fires_move(w, g, a, nil, leaf, bin, name, r->Ok_0));
                    assert(exists|m: &mut E|
                        (*m).store() == old(st).store() && *final(m) == *final(st) && #[trigger] tree_fires_move(
                            m,
                            g,
                            a,
                            nil,
                            leaf,
                            bin,
                            name,
                            r->Ok_0,
                        ));
                }
                r
            },
            Err(e) => Err(e),
        }
    }
}

} // verus!
