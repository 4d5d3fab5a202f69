//! The two concurrent maps that index the registered clients, and what the
//! registry relies on of them.
//!
//! Every function here takes the map by exclusive reference where it changes
//! it, so no reference into the map is alive during a call.

use crate::session::Session;
use std::sync::Arc;
use vstd::prelude::*;

verus! {

/// `dashmap::DashMap`. What a map holds is told by [`id_index`] and
/// [`uuid_index`].
#[verifier::external_type_specification]
#[verifier::external_body]
#[verifier::reject_recursive_types(K)]
#[verifier::reject_recursive_types(V)]
#[verifier::reject_recursive_types(S)]
pub struct ExDashMap<K, V, S>(dashmap::DashMap<K, V, S>);

/// Client sessions by transient identifier.
pub type IdIndex = dashmap::DashMap<u8, Arc<Session>>;

/// Client sessions by durable identity.
pub type UuidIndex = dashmap::DashMap<[u8; 16], Arc<Session>>;

/// The entries of an index by transient identifier.
pub uninterp spec fn id_index(m: dashmap::DashMap<u8, Arc<Session>>) -> Map<u8, Session>;

/// The entries of an index by durable identity, each key by its bytes.
pub uninterp spec fn uuid_index(m: dashmap::DashMap<[u8; 16], Arc<Session>>) -> Map<
    Seq<u8>,
    Session,
>;

/// `DashMap::new` makes a map without entries.
#[verifier::external_body]
pub(crate) fn id_index_new() -> (m: IdIndex)
    ensures
        id_index(m) =~= Map::empty(),
{
    dashmap::DashMap::new()
}

/// `DashMap::insert` binds `id` to `session`, in place of what `id` was
/// bound to, and leaves the other entries as they are.
#[verifier::external_body]
pub(crate) fn id_index_insert(m: &mut IdIndex, id: u8, session: Arc<Session>)
    ensures
        id_index(*final(m)) == id_index(*old(m)).insert(id, *session),
{
    m.insert(id, session);
}

/// `DashMap::remove` takes the entry of `id` out, if there is one, and
/// returns its session.
#[verifier::external_body]
pub(crate) fn id_index_remove(m: &mut IdIndex, id: u8) -> (removed: Option<Arc<Session>>)
    ensures
        id_index(*final(m)) == id_index(*old(m)).remove(id),
        match removed {
            Some(session) => id_index(*old(m)).contains_key(id) && *session == id_index(*old(m))[id],
            None => !id_index(*old(m)).contains_key(id),
        },
{
    m.remove(&id).map(|entry| entry.1)
}

/// `DashMap::get` finds the session that `id` is bound to; the result is
/// another handle to it.
#[verifier::external_body]
pub(crate) fn id_index_get(m: &IdIndex, id: u8) -> (found: Option<Arc<Session>>)
    ensures
        match found {
            Some(session) => id_index(*m).contains_key(id) && *session == id_index(*m)[id],
            None => !id_index(*m).contains_key(id),
        },
{
    m.get(&id).map(|entry| Arc::clone(entry.value()))
}

/// `DashMap::clear` removes every entry.
#[verifier::external_body]
pub(crate) fn id_index_clear(m: &mut IdIndex)
    ensures
        id_index(*final(m)) =~= Map::empty(),
{
    m.clear();
}

/// `DashMap::iter` visits every entry once, in no order that can be relied
/// on; the result holds the key of each.
#[verifier::external_body]
pub(crate) fn id_index_keys(m: &IdIndex) -> (keys: Vec<u8>)
    ensures
        keys@.no_duplicates(),
        forall|id: u8| keys@.contains(id) <==> id_index(*m).contains_key(id),
{
    m.iter().map(|entry| *entry.key()).collect()
}

/// `DashMap::new` makes a map without entries.
#[verifier::external_body]
pub(crate) fn uuid_index_new() -> (m: UuidIndex)
    ensures
        uuid_index(m) =~= Map::empty(),
{
    dashmap::DashMap::new()
}

/// `DashMap::insert` binds `uuid` to `session`, in place of what `uuid` was
/// bound to, and leaves the other entries as they are.
#[verifier::external_body]
pub(crate) fn uuid_index_insert(m: &mut UuidIndex, uuid: [u8; 16], session: Arc<Session>)
    ensures
        uuid_index(*final(m)) == uuid_index(*old(m)).insert(uuid@, *session),
{
    m.insert(uuid, session);
}

/// `DashMap::remove` takes the entry of `uuid` out, if there is one.
#[verifier::external_body]
pub(crate) fn uuid_index_remove(m: &mut UuidIndex, uuid: &[u8; 16])
    ensures
        uuid_index(*final(m)) == uuid_index(*old(m)).remove(uuid@),
{
    m.remove(uuid);
}

/// `DashMap::get` finds the session that `uuid` is bound to; the result is
/// another handle to it.
#[verifier::external_body]
pub(crate) fn uuid_index_get(m: &UuidIndex, uuid: &[u8; 16]) -> (found: Option<Arc<Session>>)
    ensures
        match found {
            Some(session) => uuid_index(*m).contains_key(uuid@) && *session == uuid_index(
                *m,
            )[uuid@],
            None => !uuid_index(*m).contains_key(uuid@),
        },
{
    m.get(uuid).map(|entry| Arc::clone(entry.value()))
}

/// `DashMap::clear` removes every entry.
#[verifier::external_body]
pub(crate) fn uuid_index_clear(m: &mut UuidIndex)
    ensures
        uuid_index(*final(m)) =~= Map::empty(),
{
    m.clear();
}

} // verus!
