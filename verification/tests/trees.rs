use incr_collections::engine::Engine;
use incr_collections::engine::Store;
use incr_collections::list::List;
use incr_collections::tree::Tree;
use std::cell::Cell;
use std::rc::Rc;

type T = Tree<u32, usize, i32>;
type Li = List<u32, usize, i32>;

struct Table {
    trees: Vec<Result<T, String>>,
    forced: Vec<usize>,
}

impl Table {
    fn empty() -> Table {
        Table { trees: vec![], forced: vec![] }
    }

    fn with(trees: Vec<Result<T, String>>) -> Table {
        Table { trees, forced: vec![] }
    }
}

impl Engine<u32, usize, i32> for Table {
    type Error = String;

    fn store(&self) -> Store<u32, usize, i32, String> {
        unreachable!()
    }

    fn force_tree(&mut self, loc: &usize) -> Result<T, String> {
        self.forced.push(*loc);
        match &self.trees[*loc] {
            Ok(t) => Ok(t.duplicate()),
            Err(e) => Err(e.clone()),
        }
    }

    fn force_list(&mut self, loc: &usize) -> Result<Li, String> {
        Err(format!("no list at {}", loc))
    }
}

#[derive(Debug, PartialEq)]
enum Seen {
    Nil,
    Leaf(i32),
    Bin(u32, T, T),
    Name(u32, u32, T, T),
}

fn see(st: &mut Table, t: T) -> Result<Seen, String> {
    Tree::elim(
        st,
        t,
        |_| Seen::Nil,
        |_, x| Seen::Leaf(x),
        |_, b, l, r| Seen::Bin(b, l, r),
        |_, nm, b, l, r| Seen::Name(nm, b, l, r),
    )
}

fn see_ref(st: &mut Table, t: &T) -> Result<Seen, String> {
    Tree::elim_ref(
        st,
        t,
        |_| Seen::Nil,
        |_, x: &i32| Seen::Leaf(*x),
        |_, b: &u32, l: &T, r: &T| Seen::Bin(*b, l.duplicate(), r.duplicate()),
        |_, nm: &u32, b: &u32, l: &T, r: &T| Seen::Name(*nm, *b, l.duplicate(), r.duplicate()),
    )
}

fn sample(st: &mut Table) -> T {
    let l = Tree::leaf(st, 1);
    let r = Tree::leaf(st, 2);
    Tree::bin(st, 5, l, r)
}

#[test]
fn constructors_build_the_variants() {
    let mut st = Table::empty();
    assert_eq!(Tree::nil(&mut st), T::Nil);
    assert_eq!(Tree::leaf(&mut st, 4), T::Leaf(4));
    assert_eq!(
        Tree::bin(&mut st, 3, T::Nil, T::Leaf(1)),
        T::Bin(3, Box::new(T::Nil), Box::new(T::Leaf(1)))
    );
    assert_eq!(
        Tree::name(&mut st, 9, 3, T::Leaf(1), T::Nil),
        T::Name(9, 3, Box::new(T::Leaf(1)), Box::new(T::Nil))
    );
    let shared = Rc::new(T::Leaf(8));
    assert_eq!(Tree::rc(&mut st, shared.clone()), T::Rc(shared));
    assert_eq!(Tree::art(&mut st, 2), T::Art(2));
    assert!(st.forced.is_empty());
}

#[test]
fn bin_hands_out_level_and_both_children() {
    let mut st = Table::empty();
    let t = sample(&mut st);
    let (level, left, right) = Tree::elim(
        &mut st,
        t,
        |_| panic!("nil"),
        |_, _| panic!("leaf"),
        |_, b, l, r| (b, l, r),
        |_, _, _, _, _| panic!("name"),
    )
    .unwrap();
    assert_eq!(level, 5);
    assert_eq!(see(&mut st, left), Ok(Seen::Leaf(1)));
    assert_eq!(see(&mut st, right), Ok(Seen::Leaf(2)));
}

#[test]
fn each_variant_reaches_its_own_handler() {
    let mut st = Table::empty();
    assert_eq!(see(&mut st, T::Nil), Ok(Seen::Nil));
    assert_eq!(see(&mut st, T::Leaf(3)), Ok(Seen::Leaf(3)));
    assert_eq!(
        see(&mut st, T::Bin(2, Box::new(T::Nil), Box::new(T::Leaf(1)))),
        Ok(Seen::Bin(2, T::Nil, T::Leaf(1)))
    );
    assert_eq!(
        see(&mut st, T::Name(7, 2, Box::new(T::Leaf(1)), Box::new(T::Nil))),
        Ok(Seen::Name(7, 2, T::Leaf(1), T::Nil))
    );
}

#[test]
fn exactly_one_handler_runs() {
    let inputs: Vec<T> = vec![
        T::Nil,
        T::Leaf(1),
        T::Bin(1, Box::new(T::Nil), Box::new(T::Nil)),
        T::Name(4, 1, Box::new(T::Nil), Box::new(T::Nil)),
        T::Rc(Rc::new(T::Leaf(1))),
    ];
    let expected = [[1, 0, 0, 0], [0, 1, 0, 0], [0, 0, 1, 0], [0, 0, 0, 1], [0, 1, 0, 0]];
    for (t, want) in inputs.into_iter().zip(expected.iter()) {
        let mut st = Table::empty();
        let counts = [Cell::new(0), Cell::new(0), Cell::new(0), Cell::new(0)];
        Tree::elim(
            &mut st,
            t,
            |_| counts[0].set(counts[0].get() + 1),
            |_, _| counts[1].set(counts[1].get() + 1),
            |_, _, _, _| counts[2].set(counts[2].get() + 1),
            |_, _, _, _, _| counts[3].set(counts[3].get() + 1),
        )
        .unwrap();
        let got = [counts[0].get(), counts[1].get(), counts[2].get(), counts[3].get()];
        assert_eq!(&got, want);
    }
}

#[test]
fn shared_and_memoized_wrapping_is_invisible() {
    let mut plain = Table::empty();
    let direct = see(&mut plain, sample(&mut Table::empty()));

    let mut st = Table::with(vec![
        Ok(T::Rc(Rc::new(sample(&mut Table::empty())))),
        Ok(T::Art(0)),
    ]);
    let wrapped = T::Rc(Rc::new(T::Rc(Rc::new(T::Art(1)))));
    assert_eq!(see(&mut st, wrapped), direct);
    assert_eq!(st.forced, vec![1, 0]);
    assert_eq!(direct, Ok(Seen::Bin(5, T::Leaf(1), T::Leaf(2))));
}

#[test]
fn resolve_returns_the_semantic_node() {
    let mut st = Table::with(vec![Ok(T::Rc(Rc::new(T::Leaf(7)))), Ok(T::Art(0))]);
    let wrapped = T::Rc(Rc::new(T::Art(1)));
    assert_eq!(Tree::resolve(&mut st, wrapped), Ok(T::Leaf(7)));
    assert_eq!(st.forced, vec![1, 0]);
}

#[test]
fn borrowing_elimination_shows_the_tree_that_was_built() {
    let mut st = Table::empty();
    let l = Tree::leaf(&mut st, 1);
    let r = Tree::leaf(&mut st, 2);
    let inner = Tree::name(&mut st, 11, 2, l, r);
    let other = Tree::leaf(&mut st, 3);
    let t = Tree::bin(&mut st, 6, inner, other);
    let seen = see_ref(&mut st, &t).unwrap();
    let rebuilt = match seen {
        Seen::Bin(b, l, r) => T::Bin(b, Box::new(l), Box::new(r)),
        _ => panic!("not a bin"),
    };
    assert_eq!(rebuilt, t);
    assert_eq!(t.duplicate(), t);
}

#[test]
fn borrowing_elimination_looks_through_indirections() {
    let mut st = Table::with(vec![Ok(T::Name(3, 4, Box::new(T::Leaf(1)), Box::new(T::Nil)))]);
    let t = T::Rc(Rc::new(T::Art(0)));
    assert_eq!(see_ref(&mut st, &t), Ok(Seen::Name(3, 4, T::Leaf(1), T::Nil)));
    assert_eq!(st.forced, vec![0]);
}

#[test]
fn threaded_argument_reaches_the_handler() {
    let mut st = Table::with(vec![Ok(T::Leaf(20))]);
    let r = Tree::elim_move(
        &mut st,
        T::Art(0),
        String::from("k"),
        |_, a: String| format!("nil {}", a),
        |_, x: i32, a: String| format!("leaf {} {}", x, a),
        |_, b: u32, _l: T, _r: T, a: String| format!("bin {} {}", b, a),
        |_, nm: u32, b: u32, _l: T, _r: T, a: String| format!("name {} {} {}", nm, b, a),
    );
    assert_eq!(r, Ok(String::from("leaf 20 k")));
    let mut st = Table::empty();
    let r = Tree::elim_move(
        &mut st,
        T::Name(1, 2, Box::new(T::Nil), Box::new(T::Nil)),
        5,
        |_, a: i32| a,
        |_, x: i32, a: i32| x + a,
        |_, b: u32, _l: T, _r: T, a: i32| b as i32 + a + 100,
        |_, nm: u32, b: u32, _l: T, _r: T, a: i32| (nm + b) as i32 + a + 1000,
    );
    assert_eq!(r, Ok(1008));
    let r = Tree::elim_move(
        &mut st,
        T::Nil,
        5,
        |_, a: i32| a,
        |_, x: i32, a: i32| x + a,
        |_, b: u32, _l: T, _r: T, a: i32| b as i32 + a + 100,
        |_, nm: u32, b: u32, _l: T, _r: T, a: i32| (nm + b) as i32 + a + 1000,
    );
    assert_eq!(r, Ok(5));
}

#[test]
fn a_failed_force_is_handed_on() {
    let mut st = Table::with(vec![Err(String::from("cycle")), Ok(T::Art(0))]);
    assert_eq!(see(&mut st, T::Art(1)), Err(String::from("cycle")));
    assert_eq!(see_ref(&mut st, &T::Rc(Rc::new(T::Art(0)))), Err(String::from("cycle")));
    let r = Tree::elim_move(
        &mut st,
        T::Art(0),
        1,
        |_, _: i32| 0,
        |_, _: i32, _: i32| 0,
        |_, _: u32, _: T, _: T, _: i32| 0,
        |_, _: u32, _: u32, _: T, _: T, _: i32| 0,
    );
    assert_eq!(r, Err(String::from("cycle")));
    assert_eq!(Tree::lev_of_tree(&mut st, &T::Art(1)), Err(String::from("cycle")));
}

fn sum(st: &mut Table, t: T) -> Result<i32, String> {
    Tree::elim(
        st,
        t,
        |_| Ok(0),
        |_, x| Ok(x),
        |st: &mut Table, _, l, r| Ok(sum(st, l)? + sum(st, r)?),
        |st: &mut Table, _, _, l, r| Ok(sum(st, l)? + sum(st, r)?),
    )?
}

#[test]
fn handlers_eliminate_further_through_the_engine() {
    let mut st = Table::with(vec![
        Ok(T::Bin(1, Box::new(T::Leaf(10)), Box::new(T::Leaf(20)))),
        Ok(T::Name(5, 2, Box::new(T::Art(0)), Box::new(T::Rc(Rc::new(T::Leaf(3)))))),
    ]);
    let t = T::Bin(3, Box::new(T::Art(1)), Box::new(T::Bin(1, Box::new(T::Nil), Box::new(T::Leaf(4)))));
    assert_eq!(sum(&mut st, t), Ok(37));
    assert_eq!(st.forced, vec![1, 0]);
    let mut st = Table::with(vec![Err(String::from("gone"))]);
    let t = T::Bin(3, Box::new(T::Leaf(1)), Box::new(T::Art(0)));
    assert_eq!(sum(&mut st, t), Err(String::from("gone")));
}

#[test]
fn dispatch_calls_the_matching_handler() {
    let mut st = Table::empty();
    let out = Tree::dispatch(
        &mut st,
        T::Bin(4, Box::new(T::Leaf(1)), Box::new(T::Nil)),
        |_| 0,
        |_, x: i32| x,
        |_, b: u32, _l: T, _r: T| b as i32 * 10,
        |_, _nm: u32, b: u32, _l: T, _r: T| b as i32 * 100,
    );
    assert_eq!(out, 40);
    let out = Tree::dispatch_move(
        &mut st,
        T::Leaf(6),
        1,
        |_, a: i32| a,
        |_, x: i32, a: i32| x + a,
        |_, _b: u32, _l: T, _r: T, _a: i32| -1,
        |_, _nm: u32, _b: u32, _l: T, _r: T, _a: i32| -2,
    );
    assert_eq!(out, 7);
}
