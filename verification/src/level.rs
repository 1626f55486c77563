//! Levels: the priorities that shape a tree, drawn from content hashes.

use vstd::prelude::*;
use vstd::std_specs::hash::DefaultHasherAdditionalSpecFns;
use vstd::std_specs::bits::u64_trailing_zeros;
use vstd::std_specs::bits::axiom_u64_trailing_zeros;
use std::collections::hash_map::DefaultHasher;
use std::hash::Hash;
use std::hash::Hasher;

verus! {

/// Feeds `x` into `state` through `Hash::hash` of `Y` and hands the hasher back.
/// Trusted, and nothing is claimed of what is written: that is for the `Hash`
/// impl of `Y` to decide, which need not even be repeatable.
#[verifier::external_body]
fn feed<Y: Hash>(x: &Y, mut state: DefaultHasher) -> (fed: DefaultHasher) {
    x.hash(&mut state);
    state
}

/// The content hash of `x`, by the standard library's default hasher.
pub(crate) fn content_hash<Y: Hash>(x: &Y) -> (h: u64)
    ensures
        is_content_hash(x, h),
{
    let fresh = DefaultHasher::new();
    let fed = feed(x, fresh);
    fed.finish()
}

/// That `h` is a content hash of `x`: the digest of a default hasher that was
/// fresh when `x` was fed into it through the `Hash` impl of `Y`. Two hashes of
/// one value agree only where that impl is repeatable.
pub closed spec fn is_content_hash<Y: Hash>(x: &Y, h: u64) -> bool {
    exists|fresh: DefaultHasher, fed: DefaultHasher|
        fresh@ == Seq::<Seq<u8>>::empty() && #[trigger] call_ensures(feed::<Y>, (x, fresh), fed) && h
            == DefaultHasher::spec_finish(fed@)
}

/// That `v` is a level of `x`: the number of trailing zero bits of a content
/// hash of `x`, 64 where that hash is zero.
pub open spec fn is_level_of<Y: Hash>(x: &Y, v: u32) -> bool {
    exists|h: u64| #[trigger] is_content_hash(x, h) && v == u64_trailing_zeros(h)
}

/// The level that belongs to the content hash `h`: the number of its trailing
/// zero bits, 64 for the hash zero.
pub fn lev_of_hash(h: u64) -> (r: u32)
    ensures
        r == u64_trailing_zeros(h),
        r <= 64,
        (r == 64) == (h == 0),
        r < 64 ==> (h >> r as u64) & 1u64 == 1u64,
{
    broadcast use axiom_u64_trailing_zeros;
    h.trailing_zeros()
}

} // verus!
