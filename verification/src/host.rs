//! The host collections of soroban-sdk that the vault logic works with, and
//! the trusted contracts of the calls it makes into them. Each call goes to
//! the Soroban host, which may abort it when the invocation's resource
//! budget runs out; no contract here says when that happens.
use vstd::prelude::*;

verus! {

#[verifier::external_type_specification]
#[verifier::external_body]
pub struct ExEnv(soroban_sdk::Env);

#[verifier::external_type_specification]
#[verifier::external_body]
pub struct ExBytes(soroban_sdk::Bytes);

#[verifier::external_type_specification]
#[verifier::external_body]
#[verifier::reject_recursive_types(T)]
pub struct ExVec<T>(soroban_sdk::Vec<T>);

#[verifier::external_type_specification]
#[verifier::external_body]
#[verifier::reject_recursive_types(K)]
#[verifier::reject_recursive_types(V)]
pub struct ExMap<K, V>(soroban_sdk::Map<K, V>);

/// The items of a host vector of amounts, in order, each as it converts to
/// an `i128`: `None` for a host value that is not an `i128` (a vector that
/// comes from outside the contract is not checked item by item).
pub uninterp spec fn host_items(v: soroban_sdk::Vec<i128>) -> Seq<Option<i128>>;

/// The keys of a host map that records which byte strings were seen.
pub uninterp spec fn keys_of(m: soroban_sdk::Map<soroban_sdk::Bytes, bool>) -> Set<Seq<u8>>;

/// Whether a host vector holds exactly the given amounts, in order.
pub open spec fn holds_amounts(v: soroban_sdk::Vec<i128>, amounts: Seq<i128>) -> bool {
    host_items(v) == amounts.map_values(|x: i128| Some(x))
}

/// Calls `soroban_sdk::Vec::new`; claims that the new host vector holds
/// no items.
#[verifier::external_body]
pub(crate) fn amounts_new(env: &soroban_sdk::Env) -> (v: soroban_sdk::Vec<i128>)
    ensures
        host_items(v) == Seq::<Option<i128>>::empty(),
{
    soroban_sdk::Vec::new(env)
}

/// Calls `soroban_sdk::Vec::try_get`, turning its error into `None`;
/// claims that it gives `Some(None)` at or past the end, `Some` of the item
/// at the position when that item is an `i128`, and `None` when it is not.
#[verifier::external_body]
pub(crate) fn amounts_try_get(v: &soroban_sdk::Vec<i128>, i: u32) -> (r: Option<Option<i128>>)
    ensures
        r == Some::<Option<i128>>(None) <==> i >= host_items(*v).len(),
        i < host_items(*v).len() && host_items(*v)[i as int] is Some ==> r == Some(host_items(*v)[i as int]),
        i < host_items(*v).len() && host_items(*v)[i as int] is None ==> r == None::<Option<i128>>,
{
    v.try_get(i).ok()
}

/// Calls `soroban_sdk::Vec::push_back`; claims that the item is appended
/// after the others. The host counts items in a `u32`, so the vector must
/// have room for one more.
#[verifier::external_body]
pub(crate) fn amounts_push(v: &mut soroban_sdk::Vec<i128>, x: i128)
    requires
        host_items(*old(v)).len() < u32::MAX,
    ensures
        host_items(*final(v)) == host_items(*old(v)).push(Some(x)),
{
    v.push_back(x)
}

/// Calls `soroban_sdk::Map::new`; claims that the new host map has no keys.
#[verifier::external_body]
pub(crate) fn seen_new(env: &soroban_sdk::Env) -> (m: soroban_sdk::Map<soroban_sdk::Bytes, bool>)
    ensures
        keys_of(m) == Set::<Seq<u8>>::empty(),
{
    soroban_sdk::Map::new(env)
}

/// Calls `soroban_sdk::Map::contains_key`, with the key turned into host
/// bytes by `soroban_sdk::Bytes::from_slice` in the map's own environment; claims that it tells whether
/// that byte string is a key of the map. The host compares byte keys by
/// their contents.
#[verifier::external_body]
pub(crate) fn seen_contains(m: &soroban_sdk::Map<soroban_sdk::Bytes, bool>, key: &Vec<u8>) -> (r: bool)
    ensures
        r == keys_of(*m).contains(key@),
{
    m.contains_key(soroban_sdk::Bytes::from_slice(m.env(), key.as_slice()))
}

/// Calls `soroban_sdk::Map::set`, with the key turned into host bytes by
/// `soroban_sdk::Bytes::from_slice` in the map's own environment; claims that the byte string is a key
/// afterwards and that the other keys stay. What the map holds for a key is
/// left unsaid: the vault only asks which keys it has.
#[verifier::external_body]
pub(crate) fn seen_insert(m: &mut soroban_sdk::Map<soroban_sdk::Bytes, bool>, key: &Vec<u8>)
    ensures
        keys_of(*final(m)) == keys_of(*old(m)).insert(key@),
{
    let k = soroban_sdk::Bytes::from_slice(m.env(), key.as_slice());
    m.set(k, true)
}

} // verus!
