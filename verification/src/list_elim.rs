//! Elimination of lists: structural dispatch that resolves shared and
//! memoized nodes, and turns tree segments into cons cells, before any handler
//! sees the list.

use vstd::prelude::*;
use crate::engine::Engine;
use crate::list::List;
use crate::list::list_resolve;

verus! {

/// Whether the handler that belongs to `node` may be called with the engine
/// behind `m` and the node's payload.
pub open spec fn list_accepts<E, N, L, X, Res, NilC, ConsC, NameC>(
    m: &mut E,
    node: List<N, L, X>,
    nilf: NilC,
    consf: ConsC,
    namef: NameC,
) -> bool where
    NilC: FnOnce(&mut E) -> Res,
    ConsC: FnOnce(&mut E, X, List<N, L, X>) -> Res,
    NameC: FnOnce(&mut E, N, List<N, L, X>) -> Res,
 {
    match node {
        List::Nil => nilf.requires((m,)),
        List::Cons(hd, tl) => consf.requires((m, hd, *tl)),
        List::Name(nm, tl) => namef.requires((m, nm, *tl)),
        _ => true,
    }
}

/// That `out` is what the one handler that belongs to `node` returns when it is
/// called with the engine behind `m` and the node's payload. No handler
/// belongs to a shared or memoized node, nor to a tree segment.
pub open spec fn list_fires<E, N, L, X, Res, NilC, ConsC, NameC>(
    m: &mut E,
    node: List<N, L, X>,
    nilf: NilC,
    consf: ConsC,
    namef: NameC,
    out: Res,
) -> bool where
    NilC: FnOnce(&mut E) -> Res,
    ConsC: FnOnce(&mut E, X, List<N, L, X>) -> Res,
    NameC: FnOnce(&mut E, N, List<N, L, X>) -> Res,
 {
    match node {
        List::Nil => nilf.ensures((m,), out),
        List::Cons(hd, tl) => consf.ensures((m, hd, *tl), out),
        List::Name(nm, tl) => namef.ensures((m, nm, *tl), out),
        _ => false,
    }
}

/// As [`list_accepts`], for handlers that also take a threaded argument.
pub open spec fn list_accepts_move<E, N, L, X, Arg, Res, NilC, ConsC, NameC>(
    m: &mut E,
    node: List<N, L, X>,
    arg: Arg,
    nilf: NilC,
    consf: ConsC,
    namef: NameC,
) -> bool where
    NilC: FnOnce(&mut E, Arg) -> Res,
    ConsC: FnOnce(&mut E, X, List<N, L, X>, Arg) -> Res,
    NameC: FnOnce(&mut E, N, List<N, L, X>, Arg) -> Res,
 {
    match node {
        List::Nil => nilf.requires((m, arg)),
        List::Cons(hd, tl) => consf.requires((m, hd, *tl, arg)),
        List::Name(nm, tl) => namef.requires((m, nm, *tl, arg)),
        _ => true,
    }
}

/// As [`list_fires`], for handlers that also take a threaded argument.
pub open spec fn list_fires_move<E, N, L, X, Arg, Res, NilC, ConsC, NameC>(
    m: &mut E,
    node: List<N, L, X>,
    arg: Arg,
    nilf: NilC,
    consf: ConsC,
    namef: NameC,
    out: Res,
) -> bool where
    NilC: FnOnce(&mut E, Arg) -> Res,
    ConsC: FnOnce(&mut E, X, List<N, L, X>, Arg) -> Res,
    NameC: FnOnce(&mut E, N, List<N, L, X>, Arg) -> Res,
 {
    match node {
        List::Nil => nilf.ensures((m, arg), out),
        List::Cons(hd, tl) => consf.ensures((m, hd, *tl, arg), out),
        List::Name(nm, tl) => namef.ensures((m, nm, *tl, arg), out),
        _ => false,
    }
}

impl<N: Copy, L: Copy, X: Copy> List<N, L, X> {
    /// Calls the one handler that belongs to the semantic node `node`, with the
    /// engine and the node's payload.
    pub fn dispatch<E, Res, NilC, ConsC, NameC>(
        st: &mut E,
        node: Self,
        nilf: NilC,
        consf: ConsC,
        namef: NameC,
    ) -> (out: Res) where
        E: Engine<N, L, X>,
        NilC: FnOnce(&mut E) -> Res,
        ConsC: FnOnce(&mut E, X, Self) -> Res,
        NameC: FnOnce(&mut E, N, Self) -> Res,

        requires
            node.is_semantic(),
            forall|m: &mut E|
                (*m).store() == old(st).store() ==> #[trigger] list_accepts(m, node, nilf, consf, namef),
        ensures
            exists|m: &mut E|
                (*m).store() == old(st).store() && *final(m) == *final(st) && #[trigger] list_fires(
                    m,
                    node,
                    nilf,
                    consf,
                    namef,
                    out,
                ),
    {
        let ghost g = node;
        match node {
            List::Cons(hd, tl) => {
                proof {
                    assert forall|m: &mut E| (*m).store() == st.store() implies #[trigger] consf.requires(
                        (m, g->Cons_0, *g->Cons_1),
                    ) by {
                        assert(list_accepts(m, g, nilf, consf, namef));
                    }
                }
                let out = consf(st, hd, *tl);
                proof {
                    let w = choose|m: &mut E|
                        (*m).store() == old(st).store() && *final(m) == *st && #[trigger] consf.ensures(
                            (m, g->Cons_0, *g->Cons_1),
                            out,
                        );
                    assert(list_fires(w, g, nilf, consf, namef, out));
                }
                out
            },
            List::Name(nm, tl) => {
                proof {
                    assert forall|m: &mut E| (*m).store() == st.store() implies #[trigger] namef.requires(
                        (m, g->Name_0, *g->Name_1),
                    ) by {
                        assert(list_accepts(m, g, nilf, consf, namef));
                    }
                }
                let out = namef(st, nm, *tl);
                proof {
                    let w = choose|m: &mut E|
                        (*m).store() == old(st).store() && *final(m) == *st && #[trigger] namef.ensures(
                            (m, g->Name_0, *g->Name_1),
                            out,
                        );
                    assert(list_fires(w, g, nilf, consf, namef, out));
                }
                out
            },
            _ => {
                proof {
                    assert forall|m: &mut E| (*m).store() == st.store() implies #[trigger] nilf.requires(
                        (m,),
                    ) by {
                        assert(list_accepts(m, g, nilf, consf, namef));
                    }
                }
                let out = nilf(st);
                proof {
                    let w = choose|m: &mut E|
                        (*m).store() == old(st).store() && *final(m) == *st && #[trigger] nilf.ensures(
                            (m,),
                            out,
                        );
                    assert(list_fires(w, g, nilf, consf, namef, out));
                }
                out
            },
        }
    }

    /// As [`List::dispatch`], handing `arg` on to the handler that is called.
    pub fn dispatch_move<E, Arg, Res, NilC, ConsC, NameC>(
        st: &mut E,
        node: Self,
        arg: Arg,
        nilf: NilC,
        consf: ConsC,
        namef: NameC,
    ) -> (out: Res) where
        E: Engine<N, L, X>,
        NilC: FnOnce(&mut E, Arg) -> Res,
        ConsC: FnOnce(&mut E, X, Self, Arg) -> Res,
        NameC: FnOnce(&mut E, N, Self, Arg) -> Res,

        requires
            node.is_semantic(),
            forall|m: &mut E|
                (*m).store() == old(st).store() ==> #[trigger] list_accepts_move(m, node, arg, nilf, consf, namef),
        ensures
            exists|m: &mut E|
                (*m).store() == old(st).store() && *final(m) == *final(st) && #[trigger] list_fires_move(
                    m,
                    node,
                    arg,
                    nilf,
                    consf,
                    namef,
                    out,
                ),
    {
        let ghost g = node;
        let ghost a = arg;
        match node {
            List::Cons(hd, tl) => {
                proof {
                    assert forall|m: &mut E| (*m).store() == st.store() implies #[trigger] consf.requires(
                        (m, g->Cons_0, *g->Cons_1, a),
                    ) by {
                        assert(list_accepts_move(m, g, a, nilf, consf, namef));
                    }
                }
                let out = consf(st, hd, *tl, arg);
                proof {
                    let w = choose|m: &mut E|
                        (*m).store() == old(st).store() && *final(m) == *st && #[trigger] consf.ensures(
                            (m, g->Cons_0, *g->Cons_1, a),
                            out,
                        );
                    assert(list_fires_move(w, g, a, nilf, consf, namef, out));
                }
                out
            },
            List::Name(nm, tl) => {
                proof {
                    assert forall|m: &mut E| (*m).store() == st.store() implies #[trigger] namef.requires(
                        (m, g->Name_0, *g->Name_1, a),
                    ) by {
                        assert(list_accepts_move(m, g, a, nilf, consf, namef));
                    }
                }
                let out = namef(st, nm, *tl, arg);
                proof {
                    let w = choose|m: &mut E|
                        (*m).store() == old(st).store() && *final(m) == *st && #[trigger] namef.ensures(
                            (m, g->Name_0, *g->Name_1, a),
                            out,
                        );
                    assert(list_fires_move(w, g, a, nilf, consf, namef, out));
                }
                out
            },
            _ => {
                proof {
                    assert forall|m: &mut E| (*m).store() == st.store() implies #[trigger] nilf.requires(
                        (m, a),
                    ) by {
                        assert(list_accepts_move(m, g, a, nilf, consf, namef));
                    }
                }
                let out = nilf(st, arg);
                proof {
                    let w = choose|m: &mut E|
                        (*m).store() == old(st).store() && *final(m) == *st && #[trigger] nilf.ensures(
                            (m, a),
                            out,
                        );
                    assert(list_fires_move(w, g, a, nilf, consf, namef, out));
                }
                out
            },
        }
    }

    /// Eliminates `list`: resolves what stands at its head, then calls the
    /// one handler that belongs to the node found, with the engine and the
    /// node's payload. A failed force is returned as it came, and no handler is
    /// called.
    pub fn elim<E, Res, NilC, ConsC, NameC>(
        st: &mut E,
        list: Self,
        nilf: NilC,
        consf: ConsC,
        namef: NameC,
    ) -> (r: Result<Res, E::Error>) where
        E: Engine<N, L, X>,
        NilC: FnOnce(&mut E) -> Res,
        ConsC: FnOnce(&mut E, X, Self) -> Res,
        NameC: FnOnce(&mut E, N, Self) -> Res,

        requires
            list_resolve(old(st).store(), list) matches Ok(node) ==> forall|m: &mut E|
                (*m).store() == old(st).store() ==> #[trigger] list_accepts(m, node, nilf, consf, namef),
        ensures
            list_resolve(old(st).store(), list) matches Err(e) ==> r == Err::<Res, E::Error>(e)
                && final(st).store() == old(st).store(),
            list_resolve(old(st).store(), list) matches Ok(node) ==> r is Ok && exists|m: &mut E|
                (*m).store() == old(st).store() && *final(m) == *final(st) && #[trigger] list_fires(
                    m,
                    node,
                    nilf,
                    consf,
                    namef,
                    r->Ok_0,
                ),
    {
        match Self::resolve(st, list) {
            Ok(node) => {
                let ghost g = node;
                let out = Self::dispatch(st, node, nilf, consf, namef);
                let r = Ok(out);
                proof {
                    let w = choose|m: &mut E|
                        (*m).store() == old(st).store() && *final(m) == *st && #[trigger] list_fires(
                            m,
                            g,
                            nilf,
                            consf,
                            namef,
                            r->Ok_0,
                        );
                    assert(list_fires(w, g, nilf, consf, namef, r->Ok_0));
                    assert(exists|m: &mut E|
                        (*m).store() == old(st).store() && *final(m) == *final(st) && #[trigger] list_fires(
                            m,
                            g,
                            nilf,
                            consf,
                            namef,
                            r->Ok_0,
                        ));
                }
                r
            },
            Err(e) => Err(e),
        }
    }

    /// As [`List::elim`], handing `arg` on to the handler that is called.
    pub fn elim_move<E, Arg, Res, NilC, ConsC, NameC>(
        st: &mut E,
        list: Self,
        arg: Arg,
        nilf: NilC,
        consf: ConsC,
        namef: NameC,
    ) -> (r: Result<Res, E::Error>) where
        E: Engine<N, L, X>,
        NilC: FnOnce(&mut E, Arg) -> Res,
        ConsC: FnOnce(&mut E, X, Self, Arg) -> Res,
        NameC: FnOnce(&mut E, N, Self, Arg) -> Res,

        requires
            list_resolve(old(st).store(), list) matches Ok(node) ==> forall|m: &mut E|
                (*m).store() == old(st).store() ==> #[trigger] list_accepts_move(m, node, arg, nilf, consf, namef),
        ensures
            list_resolve(old(st).store(), list) matches Err(e) ==> r == Err::<Res, E::Error>(e)
                && final(st).store() == old(st).store(),
            list_resolve(old(st).store(), list) matches Ok(node) ==> r is Ok && exists|m: &mut E|
                (*m).store() == old(st).store() && *final(m) == *final(st) && #[trigger] list_fires_move(
                    m,
                    node,
                    arg,
                    nilf,
                    consf,
                    namef,
                    r->Ok_0,
                ),
    {
        let ghost a = arg;
        match Self::resolve(st, list) {
            Ok(node) => {
                let ghost g = node;
                let out = Self::dispatch_move(st, node, arg, nilf, consf, namef);
                let r = Ok(out);
                proof {
                    let w = choose|m: &mut E|
                        (*m).store() == old(st).store() && *final(m) == *st && #[trigger] list_fires_move(
                            m,
                            g,
                            a,
                            nilf,
                            consf,
                            namef,
                            r->Ok_0,
                        );
                    assert(list_fires_move(w, g, a, nilf, consf, namef, r->Ok_0));
                    assert(exists|m: &mut E|
                        (*m).store() == old(st).store() && *final(m) == *final(st) && #[trigger] list_fires_move(
                            m,
                            g,
                            a,
                            nilf,
                            consf,
                            namef,
                            r->Ok_0,
                        ));
                }
                r
            },
            Err(e) => Err(e),
        }
    }
}

} // verus!
