use incr_collections::engine::Engine;
use incr_collections::engine::Store;
use incr_collections::level::lev_of_hash;
use incr_collections::list::List;
use incr_collections::tree::Tree;
use std::collections::hash_map::DefaultHasher;
use std::hash::Hash;
use std::hash::Hasher;
use std::rc::Rc;

type T = Tree<u32, usize, i32>;

struct Holder {
    trees: Vec<T>,
}

impl Engine<u32, usize, i32> for Holder {
    type Error = String;

    fn store(&self) -> Store<u32, usize, i32, String> {
        unreachable!()
    }

    fn force_tree(&mut self, loc: &usize) -> Result<T, String> {
        Ok(self.trees[*loc].duplicate())
    }

    fn force_list(&mut self, loc: &usize) -> Result<List<u32, usize, i32>, String> {
        Err(format!("no list at {}", loc))
    }
}

fn std_hash<Y: Hash>(x: &Y) -> u64 {
    let mut h = DefaultHasher::new();
    x.hash(&mut h);
    h.finish()
}

#[test]
fn level_of_a_hash_counts_trailing_zero_bits() {
    assert_eq!(lev_of_hash(1), 0);
    assert_eq!(lev_of_hash(8), 3);
    assert_eq!(lev_of_hash(12), 2);
    assert_eq!(lev_of_hash(1 << 63), 63);
    assert_eq!(lev_of_hash(u64::MAX), 0);
    assert_eq!(lev_of_hash(0), 64);
}

#[test]
fn level_of_a_value_follows_its_content_hash() {
    assert_eq!(T::lev(&17i32), std_hash(&17i32).trailing_zeros());
    assert_eq!(T::lev(&"abc"), std_hash(&"abc").trailing_zeros());
    assert_eq!(T::lev(&(1u8, 2u64)), std_hash(&(1u8, 2u64)).trailing_zeros());
    let mut seen = vec![];
    for x in 0..64i32 {
        let l = T::lev(&x);
        if !seen.contains(&l) {
            seen.push(l);
        }
    }
    assert!(seen.len() > 1);
}

#[test]
fn level_of_a_value_is_repeatable() {
    for x in 0..200i32 {
        let a = T::lev(&x);
        let b = T::lev(&x);
        assert_eq!(a, b);
        assert_eq!(a, std_hash(&x).trailing_zeros());
        assert!(a <= 64);
    }
    assert_eq!(T::lev(&String::from("leaf")), T::lev(&String::from("leaf")));
}

#[test]
fn level_of_a_tree_is_read_from_its_top() {
    let mut st = Holder { trees: vec![T::Bin(9, Box::new(T::Nil), Box::new(T::Nil))] };
    assert_eq!(Tree::lev_of_tree(&mut st, &T::Nil), Ok(0));
    assert_eq!(Tree::lev_of_tree(&mut st, &T::Leaf(5)), Ok(T::lev(&5i32)));
    assert_eq!(
        Tree::lev_of_tree(&mut st, &T::Bin(7, Box::new(T::Leaf(1)), Box::new(T::Leaf(2)))),
        Ok(7)
    );
    assert_eq!(
        Tree::lev_of_tree(&mut st, &T::Name(3, 12, Box::new(T::Nil), Box::new(T::Nil))),
        Ok(12)
    );
    assert_eq!(Tree::lev_of_tree(&mut st, &T::Art(0)), Ok(9));
    assert_eq!(Tree::lev_of_tree(&mut st, &T::Rc(Rc::new(T::Art(0)))), Ok(9));
}

#[test]
fn equal_trees_built_apart_have_equal_levels() {
    let mut st = Holder { trees: vec![] };
    let build = |st: &mut Holder| {
        let l = Tree::leaf(st, 10);
        let r = Tree::leaf(st, 20);
        Tree::name(st, 1, 4, l, r)
    };
    let a = build(&mut st);
    let b = build(&mut st);
    assert_eq!(a, b);
    assert_eq!(Tree::lev_of_tree(&mut st, &a), Tree::lev_of_tree(&mut st, &b));
    let x = Tree::leaf(&mut st, 77);
    let y = Tree::leaf(&mut st, 77);
    assert_eq!(Tree::lev_of_tree(&mut st, &x), Tree::lev_of_tree(&mut st, &y));
}

#[test]
fn level_arithmetic() {
    assert_eq!(T::lev_bits(), 32);
    assert_eq!(T::lev_zero(), 0);
    assert_eq!(T::lev_max_val(), u32::MAX);
    assert_eq!(T::lev_add(&2, &3), 5);
    assert_eq!(T::lev_add(&0, &u32::MAX), u32::MAX);
    assert_eq!(T::lev_inc(&4), 5);
    assert_eq!(T::lev_inc(&0), 1);
    assert!(T::lev_lte(&1, &1));
    assert!(T::lev_lte(&1, &2));
    assert!(!T::lev_lte(&2, &1));
    assert!(T::lev_lte(&T::lev_zero(), &T::lev_max_val()));
}
