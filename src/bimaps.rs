use vstd::prelude::*;

verus! {

// Trusted declarations for `bimap::BiHashMap`, used with two key/value pairs:
// identity <-> transport handle, and identity <-> (ip, port).
//
// `insert(l, r)` first removes the pair whose left value is `l` and the pair
// whose right value is `r`, then adds `(l, r)`; `remove_by_left` removes the
// pair of a left value; lookups go by either side.

#[verifier::external_type_specification]
#[verifier::external_body]
#[verifier::reject_recursive_types(L)]
#[verifier::reject_recursive_types(R)]
#[verifier::reject_recursive_types(LS)]
#[verifier::reject_recursive_types(RS)]
pub struct ExBiHashMap<L, R, LS, RS>(bimap::BiHashMap<L, R, LS, RS>);

/// The pairs of an identity <-> handle bimap, keyed by their left value.
pub uninterp spec fn handle_pairs(m: bimap::BiHashMap<u128, u32>) -> Map<u128, u32>;

/// The pairs of an identity <-> address bimap, keyed by their left value.
pub uninterp spec fn address_pairs(m: bimap::BiHashMap<u128, (u128, u16)>) -> Map<
    u128,
    (u128, u16),
>;

/// `m` after a bimap insert of `(l, r)`: the pairs with left `l` or right `r` go.
pub open spec fn bimap_insert<V>(m: Map<u128, V>, l: u128, r: V) -> Map<u128, V> {
    Map::new(|k: u128| m.contains_key(k) && k != l && m[k] != r, |k: u128| m[k]).insert(l, r)
}

/// Every value of `m` belongs to one key only.
pub open spec fn injective<K, V>(m: Map<K, V>) -> bool {
    forall|a: K, b: K|
        #![trigger m[a], m[b]]
        m.contains_key(a) && m.contains_key(b) && m[a] == m[b] ==> a == b
}

/// Relies on `bimap::BiHashMap::new`: an empty bimap.
#[verifier::external_body]
pub(crate) fn handles_new() -> (r: bimap::BiHashMap<u128, u32>)
    ensures
        handle_pairs(r).is_empty(),
{
    bimap::BiHashMap::new()
}

/// Relies on `bimap::BiHashMap::insert`: drops the pairs of `l` and of `r`, then adds `(l, r)`.
#[verifier::external_body]
pub(crate) fn handles_insert(m: &mut bimap::BiHashMap<u128, u32>, l: u128, r: u32)
    ensures
        handle_pairs(*final(m)) == bimap_insert(handle_pairs(*old(m)), l, r),
{
    m.insert(l, r);
}

/// Relies on `bimap::BiHashMap::get_by_left`: the right value paired with `l`.
#[verifier::external_body]
pub(crate) fn handles_get_by_left(m: &bimap::BiHashMap<u128, u32>, l: u128) -> (r: Option<u32>)
    ensures
        r == (if handle_pairs(*m).contains_key(l) {
            Some(handle_pairs(*m)[l])
        } else {
            None
        }),
{
    m.get_by_left(&l).copied()
}

/// Relies on `bimap::BiHashMap::get_by_right`: the left value paired with `v`.
#[verifier::external_body]
pub(crate) fn handles_get_by_right(m: &bimap::BiHashMap<u128, u32>, v: u32) -> (r: Option<u128>)
    ensures
        r matches Some(k) ==> handle_pairs(*m).contains_key(k) && handle_pairs(*m)[k] == v,
        r is None ==> forall|k: u128|
            #![trigger handle_pairs(*m)[k]]
            handle_pairs(*m).contains_key(k) ==> handle_pairs(*m)[k] != v,
{
    m.get_by_right(&v).copied()
}

/// Relies on `bimap::BiHashMap::remove_by_left`: drops the pair of `l`.
#[verifier::external_body]
pub(crate) fn handles_remove_by_left(m: &mut bimap::BiHashMap<u128, u32>, l: u128)
    ensures
        handle_pairs(*final(m)) == handle_pairs(*old(m)).remove(l),
{
    m.remove_by_left(&l);
}

/// Relies on `bimap::BiHashMap::iter`: it yields the pairs of the bimap, in no stated order.
#[verifier::external_body]
pub(crate) fn handles_list(m: &bimap::BiHashMap<u128, u32>) -> (r: Vec<(u128, u32)>)
    ensures
        forall|i: int|
            0 <= i < r@.len() ==> handle_pairs(*m).contains_key(#[trigger] r@[i].0)
                && handle_pairs(*m)[r@[i].0] == r@[i].1,
        forall|k: u128|
            handle_pairs(*m).contains_key(k) ==> exists|i: int|
                0 <= i < r@.len() && #[trigger] r@[i].0 == k,
{
    m.iter().map(|(l, r)| (*l, *r)).collect()
}

/// Relies on `bimap::BiHashMap::new`: an empty bimap.
#[verifier::external_body]
pub(crate) fn addresses_new() -> (r: bimap::BiHashMap<u128, (u128, u16)>)
    ensures
        address_pairs(r).is_empty(),
{
    bimap::BiHashMap::new()
}

/// Relies on `bimap::BiHashMap::insert`: drops the pairs of `l` and of `r`, then adds `(l, r)`.
#[verifier::external_body]
pub(crate) fn addresses_insert(m: &mut bimap::BiHashMap<u128, (u128, u16)>, l: u128, r: (u128, u16))
    ensures
        address_pairs(*final(m)) == bimap_insert(address_pairs(*old(m)), l, r),
{
    m.insert(l, r);
}

/// Relies on `bimap::BiHashMap::get_by_left`: the right value paired with `l`.
#[verifier::external_body]
pub(crate) fn addresses_get_by_left(m: &bimap::BiHashMap<u128, (u128, u16)>, l: u128) -> (r:
    Option<(u128, u16)>)
    ensures
        r == (if address_pairs(*m).contains_key(l) {
            Some(address_pairs(*m)[l])
        } else {
            None
        }),
{
    m.get_by_left(&l).copied()
}

/// Relies on `bimap::BiHashMap::get_by_right`: the left value paired with `v`.
#[verifier::external_body]
pub(crate) fn addresses_get_by_right(m: &bimap::BiHashMap<u128, (u128, u16)>, v: (u128, u16)) -> (r:
    Option<u128>)
    ensures
        r matches Some(k) ==> address_pairs(*m).contains_key(k) && address_pairs(*m)[k] == v,
        r is None ==> forall|k: u128|
            #![trigger address_pairs(*m)[k]]
            address_pairs(*m).contains_key(k) ==> address_pairs(*m)[k] != v,
{
    m.get_by_right(&v).copied()
}

/// Relies on `bimap::BiHashMap::remove_by_left`: drops the pair of `l`.
#[verifier::external_body]
pub(crate) fn addresses_remove_by_left(m: &mut bimap::BiHashMap<u128, (u128, u16)>, l: u128)
    ensures
        address_pairs(*final(m)) == address_pairs(*old(m)).remove(l),
{
    m.remove_by_left(&l);
}

/// Relies on `bimap::BiHashMap::iter`: it yields the pairs of the bimap, in no stated order.
#[verifier::external_body]
pub(crate) fn addresses_list(m: &bimap::BiHashMap<u128, (u128, u16)>) -> (r: Vec<(u128, (u128, u16))>)
    ensures
        forall|i: int|
            0 <= i < r@.len() ==> address_pairs(*m).contains_key(#[trigger] r@[i].0)
                && address_pairs(*m)[r@[i].0] == r@[i].1,
        forall|k: u128|
            address_pairs(*m).contains_key(k) ==> exists|i: int|
                0 <= i < r@.len() && #[trigger] r@[i].0 == k,
{
    m.iter().map(|(l, r)| (*l, *r)).collect()
}

} // verus!
