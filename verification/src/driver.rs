use vstd::prelude::*;

use crate::entity::Audit;
use crate::entity::Csrf;
use crate::entity::Key;
use crate::entity::Service;
use crate::entity::User;
use crate::entity::is_root_key;
use crate::entity::is_service_key;
use crate::entity::is_user_key;
use crate::entity::key_is_live;
use crate::entity::key_shape_ok;
use crate::error::DriverError;

verus! {

/// The in-memory storage backend. It implements the driver data
/// contract: every read and write that accepts a service mask behaves
/// as if the table were first filtered to the masked tenant's rows.
///
/// Tables are kept sorted (keys, services and users by identifier;
/// audits by creation time with the identifier as tiebreaker), and the
/// uniqueness rules of the schema hold throughout: identifiers, key
/// values, service names and per-service user emails never repeat.
pub struct Driver {
    pub services: Vec<Service>,
    pub users: Vec<User>,
    pub keys: Vec<Key>,
    pub audits: Vec<Audit>,
    pub csrfs: Vec<Csrf>,
}

/// `a` comes strictly before `b` in the audit trail: earlier creation
/// time, identifier as tiebreaker.
pub open spec fn audit_before(a: Audit, b: Audit) -> bool {
    a.created_at < b.created_at || (a.created_at == b.created_at && a.id < b.id)
}

pub open spec fn keys_sorted(s: Seq<Key>) -> bool {
    forall|i: int, j: int| 0 <= i < j < s.len() ==> s[i].id < s[j].id
}

pub open spec fn services_sorted(s: Seq<Service>) -> bool {
    forall|i: int, j: int| 0 <= i < j < s.len() ==> s[i].id < s[j].id
}

pub open spec fn users_sorted(s: Seq<User>) -> bool {
    forall|i: int, j: int| 0 <= i < j < s.len() ==> s[i].id < s[j].id
}

pub open spec fn audits_sorted(s: Seq<Audit>) -> bool {
    forall|i: int, j: int| 0 <= i < j < s.len() ==> audit_before(s[i], s[j])
}

pub open spec fn audit_ids_unique(s: Seq<Audit>) -> bool {
    forall|i: int, j: int| 0 <= i < j < s.len() ==> s[i].id != s[j].id
}

pub open spec fn audit_id_free(s: Seq<Audit>, id: u128) -> bool {
    forall|i: int| 0 <= i < s.len() ==> s[i].id != id
}

pub open spec fn key_values_unique(s: Seq<Key>) -> bool {
    forall|i: int, j: int| 0 <= i < j < s.len() ==> s[i].value@ != s[j].value@
}

pub open spec fn service_names_unique(s: Seq<Service>) -> bool {
    forall|i: int, j: int| 0 <= i < j < s.len() ==> s[i].name@ != s[j].name@
}

pub open spec fn user_emails_unique(s: Seq<User>) -> bool {
    forall|i: int, j: int|
        0 <= i < j < s.len() ==> !(s[i].service_id == s[j].service_id && s[i].email@
            == s[j].email@)
}

pub open spec fn csrf_keys_unique(s: Seq<Csrf>) -> bool {
    forall|i: int, j: int| 0 <= i < j < s.len() ==> s[i].key@ != s[j].key@
}

pub open spec fn keys_shaped(s: Seq<Key>) -> bool {
    forall|i: int| 0 <= i < s.len() ==> key_shape_ok(s[i])
}

/// The key is visible under the mask: no mask, or a service key (or
/// user key) bound to the masked tenant. Root keys are never visible
/// under a mask.
pub open spec fn key_in_mask(k: Key, mask: Option<u128>) -> bool {
    match mask {
        None => true,
        Some(m) => k.service_id == Some(m),
    }
}

/// The key authenticates the given value at root privilege.
pub open spec fn root_value_match(k: Key, v: Seq<char>) -> bool {
    key_is_live(k) && is_root_key(k) && k.value@ == v
}

/// The key authenticates the given value at service privilege.
pub open spec fn service_value_match(k: Key, v: Seq<char>) -> bool {
    key_is_live(k) && is_service_key(k) && k.value@ == v
}

/// The key authenticates the given value at user privilege within the
/// given service.
pub open spec fn user_value_match(k: Key, service_id: u128, v: Seq<char>) -> bool {
    key_is_live(k) && is_user_key(k) && k.service_id == Some(service_id) && k.value@ == v
}

pub open spec fn has_root_value(s: Seq<Key>, v: Seq<char>) -> bool {
    exists|i: int| 0 <= i < s.len() && root_value_match(s[i], v)
}

pub open spec fn has_service_value(s: Seq<Key>, v: Seq<char>) -> bool {
    exists|i: int| 0 <= i < s.len() && service_value_match(s[i], v)
}

pub open spec fn has_user_value(s: Seq<Key>, service_id: u128, v: Seq<char>) -> bool {
    exists|i: int| 0 <= i < s.len() && user_value_match(s[i], service_id, v)
}

pub open spec fn key_id_free(s: Seq<Key>, id: u128) -> bool {
    forall|i: int| 0 <= i < s.len() ==> s[i].id != id
}

pub open spec fn key_value_free(s: Seq<Key>, v: Seq<char>) -> bool {
    forall|i: int| 0 <= i < s.len() ==> s[i].value@ != v
}

/// A non-positive limit yields an empty page.
pub open spec fn clamp_limit(limit: i64) -> int {
    if limit < 0 {
        0
    } else {
        limit as int
    }
}

/// The table `t` is `s` with one row inserted, order decided by the
/// store.
pub open spec fn row_inserted<A>(s: Seq<A>, t: Seq<A>, v: A) -> bool {
    exists|j: int| 0 <= j <= s.len() && t == s.insert(j, v)
}

pub open spec fn take_at_most<A>(s: Seq<A>, n: int) -> Seq<A> {
    if n < s.len() {
        s.take(n)
    } else {
        s
    }
}

pub open spec fn key_gt_pred(gt: u128, mask: Option<u128>) -> spec_fn(Key) -> bool {
    |k: Key| k.id > gt && key_in_mask(k, mask)
}

pub open spec fn key_lt_pred(lt: u128, mask: Option<u128>) -> spec_fn(Key) -> bool {
    |k: Key| k.id < lt && key_in_mask(k, mask)
}

pub open spec fn key_id_fn() -> spec_fn(Key) -> u128 {
    |k: Key| k.id
}

pub open spec fn key_is_nonroot_fn() -> spec_fn(Key) -> bool {
    |k: Key| !is_root_key(k)
}

pub open spec fn key_user_fn(user_id: u128) -> spec_fn(Key) -> bool {
    |k: Key| k.user_id == Some(user_id)
}

/// `k` is `k0` with the partial update applied: `None` leaves a field
/// unchanged, `Some` replaces it; `updated_at` moves to `now` and every
/// immutable field is kept.
pub open spec fn key_updated(
    k0: Key,
    k: Key,
    now: i64,
    is_enabled: Option<bool>,
    is_revoked: Option<bool>,
    name: Option<&str>,
) -> bool {
    &&& k.created_at == k0.created_at
    &&& k.updated_at == now
    &&& k.id == k0.id
    &&& k.value == k0.value
    &&& k.service_id == k0.service_id
    &&& k.user_id == k0.user_id
    &&& k.is_enabled == (match is_enabled {
        Some(b) => b,
        None => k0.is_enabled,
    })
    &&& k.is_revoked == (match is_revoked {
        Some(b) => b,
        None => k0.is_revoked,
    })
    &&& (match name {
        Some(n) => k.name@ == n@,
        None => k.name == k0.name,
    })
}

/// Identifiers of the keys after the cursor, ascending, under the mask.
pub open spec fn key_ids_gt(s: Seq<Key>, gt: u128, mask: Option<u128>) -> Seq<u128> {
    s.filter(key_gt_pred(gt, mask)).map_values(key_id_fn())
}

/// Identifiers of the keys before the cursor, descending, under the mask.
pub open spec fn key_ids_lt(s: Seq<Key>, lt: u128, mask: Option<u128>) -> Seq<u128> {
    s.filter(key_lt_pred(lt, mask)).map_values(key_id_fn()).reverse()
}

/// The identifier is visible under the mask: no mask, or the masked
/// tenant itself.
pub open spec fn id_visible(id: u128, mask: Option<u128>) -> bool {
    match mask {
        None => true,
        Some(m) => id == m,
    }
}

/// The user row is visible under the mask.
pub open spec fn user_in_mask(u: User, mask: Option<u128>) -> bool {
    match mask {
        None => true,
        Some(m) => u.service_id == m,
    }
}

pub open spec fn service_id_free(s: Seq<Service>, id: u128) -> bool {
    forall|i: int| 0 <= i < s.len() ==> s[i].id != id
}

pub open spec fn service_name_free(s: Seq<Service>, n: Seq<char>) -> bool {
    forall|i: int| 0 <= i < s.len() ==> s[i].name@ != n
}

/// No service other than `id` holds the name.
pub open spec fn service_name_free_except(s: Seq<Service>, n: Seq<char>, id: u128) -> bool {
    forall|i: int| 0 <= i < s.len() && s[i].id != id ==> s[i].name@ != n
}

pub open spec fn user_id_free(s: Seq<User>, id: u128) -> bool {
    forall|i: int| 0 <= i < s.len() ==> s[i].id != id
}

pub open spec fn user_email_free(s: Seq<User>, service_id: u128, e: Seq<char>) -> bool {
    forall|i: int| 0 <= i < s.len() ==> !(s[i].service_id == service_id && s[i].email@ == e)
}

pub open spec fn csrf_key_free(s: Seq<Csrf>, k: Seq<char>) -> bool {
    forall|i: int| 0 <= i < s.len() ==> s[i].key@ != k
}

/// Some row of the service table has this identifier.
pub open spec fn service_present(s: Seq<Service>, id: u128) -> bool {
    exists|i: int| 0 <= i < s.len() && s[i].id == id
}

/// Some row of the user table has this identifier.
pub open spec fn user_present(s: Seq<User>, id: u128) -> bool {
    exists|i: int| 0 <= i < s.len() && s[i].id == id
}

/// Some row of the key table has this identifier.
pub open spec fn key_present(s: Seq<Key>, id: u128) -> bool {
    exists|i: int| 0 <= i < s.len() && s[i].id == id
}

pub open spec fn service_gt_pred(gt: u128) -> spec_fn(Service) -> bool {
    |s: Service| s.id > gt
}

pub open spec fn service_lt_pred(lt: u128) -> spec_fn(Service) -> bool {
    |s: Service| s.id < lt
}

pub open spec fn service_id_fn() -> spec_fn(Service) -> u128 {
    |s: Service| s.id
}

/// Identifiers of the services after the cursor, ascending.
pub open spec fn service_ids_gt(s: Seq<Service>, gt: u128) -> Seq<u128> {
    s.filter(service_gt_pred(gt)).map_values(service_id_fn())
}

/// Identifiers of the services before the cursor, descending.
pub open spec fn service_ids_lt(s: Seq<Service>, lt: u128) -> Seq<u128> {
    s.filter(service_lt_pred(lt)).map_values(service_id_fn()).reverse()
}

pub open spec fn user_gt_pred(gt: u128, mask: Option<u128>) -> spec_fn(User) -> bool {
    |u: User| u.id > gt && user_in_mask(u, mask)
}

pub open spec fn user_id_fn() -> spec_fn(User) -> u128 {
    |u: User| u.id
}

/// Identifiers of the users after the cursor, ascending, under the mask.
pub open spec fn user_ids_gt(s: Seq<User>, gt: u128, mask: Option<u128>) -> Seq<u128> {
    s.filter(user_gt_pred(gt, mask)).map_values(user_id_fn())
}

pub open spec fn user_lt_pred(lt: u128, mask: Option<u128>) -> spec_fn(User) -> bool {
    |u: User| u.id < lt && user_in_mask(u, mask)
}

/// Identifiers of the users before the cursor, descending, under the
/// mask.
pub open spec fn user_ids_lt(s: Seq<User>, lt: u128, mask: Option<u128>) -> Seq<u128> {
    s.filter(user_lt_pred(lt, mask)).map_values(user_id_fn()).reverse()
}

/// The service table `t` is `s` with the row `id` replaced by `v`.
pub open spec fn service_row_updated(
    s: Seq<Service>,
    t: Seq<Service>,
    id: u128,
    v: Service,
    now: i64,
    is_enabled: Option<bool>,
    name: Option<&str>,
) -> bool {
    exists|i: int|
        0 <= i < s.len() && s[i].id == id && service_updated(s[i], v, now, is_enabled, name) && t
            == s.update(i, v)
}

/// `v` is `s0` with the partial update applied: `None` leaves a field
/// unchanged, `Some` replaces it.
pub open spec fn service_updated(
    s0: Service,
    v: Service,
    now: i64,
    is_enabled: Option<bool>,
    name: Option<&str>,
) -> bool {
    &&& v.created_at == s0.created_at
    &&& v.updated_at == now
    &&& v.id == s0.id
    &&& v.url == s0.url
    &&& v.is_enabled == (match is_enabled {
        Some(b) => b,
        None => s0.is_enabled,
    })
    &&& (match name {
        Some(n) => v.name@ == n@,
        None => v.name == s0.name,
    })
}

/// `v` is `u0` with the partial update applied.
pub open spec fn user_updated(
    u0: User,
    v: User,
    now: i64,
    is_enabled: Option<bool>,
    name: Option<&str>,
    password_hash: Option<&str>,
) -> bool {
    &&& v.created_at == u0.created_at
    &&& v.updated_at == now
    &&& v.id == u0.id
    &&& v.email == u0.email
    &&& v.service_id == u0.service_id
    &&& v.is_enabled == (match is_enabled {
        Some(b) => b,
        None => u0.is_enabled,
    })
    &&& (match name {
        Some(n) => v.name@ == n@,
        None => v.name == u0.name,
    })
    &&& (match password_hash {
        Some(h) => v.password_hash matches Some(ph) && ph@ == h@,
        None => v.password_hash == u0.password_hash,
    })
}

/// Build the partially updated copy of a key row.
fn key_apply_update(
    k0: &Key,
    now: i64,
    is_enabled: Option<bool>,
    is_revoked: Option<bool>,
    name: Option<&str>,
) -> (k: Key)
    ensures
        key_updated(*k0, k, now, is_enabled, is_revoked, name),
{
    Key {
        created_at: k0.created_at,
        updated_at: now,
        id: k0.id,
        is_enabled: match is_enabled {
            Some(b) => b,
            None => k0.is_enabled,
        },
        is_revoked: match is_revoked {
            Some(b) => b,
            None => k0.is_revoked,
        },
        name: match name {
            Some(n) => n.to_owned(),
            None => k0.name.clone(),
        },
        value: k0.value.clone(),
        service_id: k0.service_id,
        user_id: k0.user_id,
    }
}

impl Driver {
    /// Every table ordered and every schema uniqueness rule in force.
    pub open spec fn wf(&self) -> bool {
        &&& keys_sorted(self.keys@)
        &&& key_values_unique(self.keys@)
        &&& keys_shaped(self.keys@)
        &&& services_sorted(self.services@)
        &&& service_names_unique(self.services@)
        &&& users_sorted(self.users@)
        &&& user_emails_unique(self.users@)
        &&& audits_sorted(self.audits@)
        &&& audit_ids_unique(self.audits@)
        &&& csrf_keys_unique(self.csrfs@)
    }

    /// An empty store.
    pub fn new() -> (r: Driver)
        ensures
            r.wf(),
            r.services@ == Seq::<Service>::empty(),
            r.users@ == Seq::<User>::empty(),
            r.keys@ == Seq::<Key>::empty(),
            r.audits@ == Seq::<Audit>::empty(),
            r.csrfs@ == Seq::<Csrf>::empty(),
    {
        Driver {
            services: Vec::new(),
            users: Vec::new(),
            keys: Vec::new(),
            audits: Vec::new(),
            csrfs: Vec::new(),
        }
    }

    /// Whether some key row already holds this value.
    fn key_value_taken(&self, value: &str) -> (r: bool)
        ensures
            r == !key_value_free(self.keys@, value@),
    {
        let v: String = value.to_owned();
        let mut i: usize = 0;
        while i < self.keys.len()
            invariant
                i <= self.keys@.len(),
                v@ == value@,
                forall|j: int| 0 <= j < i ==> self.keys@[j].value@ != value@,
            decreases self.keys@.len() - i,
        {
            if self.keys[i].value == v {
                return true;
            }
            i += 1;
        }
        false
    }

    /// The position at which a key with this identifier sorts.
    fn key_insert_pos(&self, id: u128) -> (pos: usize)
        requires
            self.wf(),
        ensures
            pos <= self.keys@.len(),
            forall|j: int| 0 <= j < pos ==> self.keys@[j].id < id,
            pos < self.keys@.len() ==> self.keys@[pos as int].id >= id,
    {
        let mut pos: usize = 0;
        while pos < self.keys.len() && self.keys[pos].id < id
            invariant
                pos <= self.keys@.len(),
                forall|j: int| 0 <= j < pos ==> self.keys@[j].id < id,
            decreases self.keys@.len() - pos,
        {
            pos += 1;
        }
        pos
    }

    /// Insert a key row. Fails with `Conflict` when the identifier or
    /// the value is already taken, mirroring the schema's uniqueness
    /// constraints.
    pub fn key_create(
        &mut self,
        id: u128,
        now: i64,
        is_enabled: bool,
        is_revoked: bool,
        name: &str,
        value: &str,
        service_id: Option<u128>,
        user_id: Option<u128>,
    ) -> (r: Result<Key, DriverError>)
        requires
            old(self).wf(),
            user_id is Some ==> service_id is Some,
        ensures
            final(self).wf(),
            final(self).services == old(self).services,
            final(self).users == old(self).users,
            final(self).audits == old(self).audits,
            final(self).csrfs == old(self).csrfs,
            r is Ok <==> key_id_free(old(self).keys@, id) && key_value_free(
                old(self).keys@,
                value@,
            ),
            r matches Ok(k) ==> {
                &&& k.id == id
                &&& k.created_at == now
                &&& k.updated_at == now
                &&& k.is_enabled == is_enabled
                &&& k.is_revoked == is_revoked
                &&& k.name@ == name@
                &&& k.value@ == value@
                &&& k.service_id == service_id
                &&& k.user_id == user_id
                &&& exists|j: int|
                    0 <= j <= old(self).keys@.len() && final(self).keys@ == old(
                        self,
                    ).keys@.insert(j, k)
            },
            r is Err ==> final(self).keys == old(self).keys && r == Err::<
                Key,
                DriverError,
            >(DriverError::Conflict),
    {
        if self.key_value_taken(value) {
            return Err(DriverError::Conflict);
        }
        let pos = self.key_insert_pos(id);
        if pos < self.keys.len() && self.keys[pos].id == id {
            return Err(DriverError::Conflict);
        }
        proof {
            assert forall|j: int| 0 <= j < old(self).keys@.len() implies old(
                self,
            ).keys@[j].id != id by {
                if j >= pos {
                    assert(old(self).keys@[pos as int].id <= old(self).keys@[j].id);
                }
            }
        }
        let k = Key {
            created_at: now,
            updated_at: now,
            id,
            is_enabled,
            is_revoked,
            name: name.to_owned(),
            value: value.to_owned(),
            service_id,
            user_id,
        };
        let kc = k.clone();
        self.keys.insert(pos, kc);
        proof {
            let s = old(self).keys@;
            let t = self.keys@;
            assert(t == s.insert(pos as int, k));
            s.insert_ensures(pos as int, k);
            assert forall|p: int, q: int| 0 <= p < q < t.len() implies t[p].id < t[q].id by {
                if q == pos {
                    assert(t[p] == s[p]);
                } else if p == pos {
                    assert(t[q] == s[q - 1]);
                    assert(s[q - 1].id >= s[pos as int].id);
                } else if q < pos {
                    assert(t[p] == s[p] && t[q] == s[q]);
                } else if p > pos {
                    assert(t[p] == s[p - 1] && t[q] == s[q - 1]);
                } else {
                    assert(t[p] == s[p] && t[q] == s[q - 1]);
                }
            }
            assert forall|p: int, q: int| 0 <= p < q < t.len() implies t[p].value@
                != t[q].value@ by {}
            assert forall|m: int| 0 <= m < t.len() implies key_shape_ok(t[m]) by {}
        }
        Ok(k)
    }

    /// Read a key row by identifier, unrestricted.
    pub fn key_read_by_id(&self, id: u128) -> (r: Option<Key>)
        requires
            self.wf(),
        ensures
            r is Some <==> exists|i: int| 0 <= i < self.keys@.len() && self.keys@[i].id == id,
            r matches Some(k) ==> k.id == id && self.keys@.contains(k),
    {
        let mut i: usize = 0;
        while i < self.keys.len()
            invariant
                i <= self.keys@.len(),
                forall|j: int| 0 <= j < i ==> self.keys@[j].id != id,
            decreases self.keys@.len() - i,
        {
            if self.keys[i].id == id {
                let k = self.keys[i].clone();
                proof {
                    assert(self.keys@.contains(self.keys@[i as int]));
                }
                return Some(k);
            }
            i += 1;
        }
        None
    }

    /// Resolve a bearer value at root privilege. Disabled and revoked
    /// keys are treated as absent, as are keys of any other tier.
    pub fn key_read_by_root_value(&self, value: &str) -> (r: Option<Key>)
        requires
            self.wf(),
        ensures
            r is Some <==> has_root_value(self.keys@, value@),
            r matches Some(k) ==> root_value_match(k, value@) && self.keys@.contains(k),
    {
        let v: String = value.to_owned();
        let mut i: usize = 0;
        while i < self.keys.len()
            invariant
                i <= self.keys@.len(),
                v@ == value@,
                forall|j: int| 0 <= j < i ==> !root_value_match(self.keys@[j], value@),
            decreases self.keys@.len() - i,
        {
            let k = &self.keys[i];
            if k.is_enabled && !k.is_revoked && k.service_id.is_none() && k.user_id.is_none()
                && k.value == v {
                proof {
                    assert(self.keys@.contains(self.keys@[i as int]));
                }
                return Some(k.clone());
            }
            i += 1;
        }
        None
    }

    /// Resolve a bearer value at service privilege. Disabled and
    /// revoked keys are treated as absent, as are keys of any other
    /// tier.
    pub fn key_read_by_service_value(&self, value: &str) -> (r: Option<Key>)
        requires
            self.wf(),
        ensures
            r is Some <==> has_service_value(self.keys@, value@),
            r matches Some(k) ==> service_value_match(k, value@) && self.keys@.contains(k),
    {
        let v: String = value.to_owned();
        let mut i: usize = 0;
        while i < self.keys.len()
            invariant
                i <= self.keys@.len(),
                v@ == value@,
                forall|j: int| 0 <= j < i ==> !service_value_match(self.keys@[j], value@),
            decreases self.keys@.len() - i,
        {
            let k = &self.keys[i];
            if k.is_enabled && !k.is_revoked && k.service_id.is_some() && k.user_id.is_none()
                && k.value == v {
                proof {
                    assert(self.keys@.contains(self.keys@[i as int]));
                }
                return Some(k.clone());
            }
            i += 1;
        }
        None
    }

    /// Resolve a bearer value at user privilege within one service.
    pub fn key_read_by_user_value(&self, service_id: u128, value: &str) -> (r: Option<Key>)
        requires
            self.wf(),
        ensures
            r is Some <==> has_user_value(self.keys@, service_id, value@),
            r matches Some(k) ==> user_value_match(k, service_id, value@) && self.keys@.contains(
                k,
            ),
    {
        let v: String = value.to_owned();
        let mut i: usize = 0;
        while i < self.keys.len()
            invariant
                i <= self.keys@.len(),
                v@ == value@,
                forall|j: int|
                    0 <= j < i ==> !user_value_match(self.keys@[j], service_id, value@),
            decreases self.keys@.len() - i,
        {
            let k = &self.keys[i];
            let sid_match = match k.service_id {
                Some(s) => s == service_id,
                None => false,
            };
            if k.is_enabled && !k.is_revoked && sid_match && k.user_id.is_some() && k.value == v {
                proof {
                    assert(self.keys@.contains(self.keys@[i as int]));
                }
                return Some(k.clone());
            }
            i += 1;
        }
        None
    }

    /// Read the key bound to one user of one service, if any.
    pub fn key_read_by_user_id(&self, service_id: u128, user_id: u128) -> (r: Option<Key>)
        requires
            self.wf(),
        ensures
            r is Some <==> exists|i: int|
                0 <= i < self.keys@.len() && self.keys@[i].service_id == Some(service_id)
                    && self.keys@[i].user_id == Some(user_id),
            r matches Some(k) ==> k.service_id == Some(service_id) && k.user_id == Some(user_id)
                && self.keys@.contains(k),
    {
        let mut i: usize = 0;
        while i < self.keys.len()
            invariant
                i <= self.keys@.len(),
                forall|j: int|
                    0 <= j < i ==> !(self.keys@[j].service_id == Some(service_id)
                        && self.keys@[j].user_id == Some(user_id)),
            decreases self.keys@.len() - i,
        {
            let k = &self.keys[i];
            let sid_match = match k.service_id {
                Some(s) => s == service_id,
                None => false,
            };
            let uid_match = match k.user_id {
                Some(u) => u == user_id,
                None => false,
            };
            if sid_match && uid_match {
                proof {
                    assert(self.keys@.contains(self.keys@[i as int]));
                }
                return Some(k.clone());
            }
            i += 1;
        }
        None
    }

    /// The index of the key row with this identifier, if any.
    fn key_index_by_id(&self, id: u128) -> (r: Option<usize>)
        ensures
            r matches Some(i) ==> i < self.keys@.len() && self.keys@[i as int].id == id,
            r is None ==> forall|j: int| 0 <= j < self.keys@.len() ==> self.keys@[j].id != id,
    {
        let mut i: usize = 0;
        while i < self.keys.len()
            invariant
                i <= self.keys@.len(),
                forall|j: int| 0 <= j < i ==> self.keys@[j].id != id,
            decreases self.keys@.len() - i,
        {
            if self.keys[i].id == id {
                return Some(i);
            }
            i += 1;
        }
        None
    }

    /// Partially update a key row. `None` leaves a field unchanged.
    /// Fails with `NotFound` when no row has this identifier.
    pub fn key_update_by_id(
        &mut self,
        now: i64,
        id: u128,
        is_enabled: Option<bool>,
        is_revoked: Option<bool>,
        name: Option<&str>,
    ) -> (r: Result<Key, DriverError>)
        requires
            old(self).wf(),
        ensures
            final(self).wf(),
            final(self).services == old(self).services,
            final(self).users == old(self).users,
            final(self).audits == old(self).audits,
            final(self).csrfs == old(self).csrfs,
            r is Ok <==> exists|i: int|
                0 <= i < old(self).keys@.len() && old(self).keys@[i].id == id,
            r matches Ok(k) ==> exists|i: int|
                0 <= i < old(self).keys@.len() && old(self).keys@[i].id == id && key_updated(
                    old(self).keys@[i],
                    k,
                    now,
                    is_enabled,
                    is_revoked,
                    name,
                ) && final(self).keys@ == old(self).keys@.update(i, k),
            r is Err ==> final(self).keys == old(self).keys && r == Err::<
                Key,
                DriverError,
            >(DriverError::NotFound),
    {
        match self.key_index_by_id(id) {
            None => Err(DriverError::NotFound),
            Some(i) => {
                let k = key_apply_update(&self.keys[i], now, is_enabled, is_revoked, name);
                let kc = k.clone();
                self.keys.remove(i);
                self.keys.insert(i, kc);
                proof {
                    let s = old(self).keys@;
                    let t = self.keys@;
                    assert(t =~= s.update(i as int, k));
                    assert forall|p: int, q: int| 0 <= p < q < t.len() implies t[p].id
                        < t[q].id by {
                        assert(t[p].id == s[p].id && t[q].id == s[q].id);
                    }
                    assert forall|p: int, q: int| 0 <= p < q < t.len() implies t[p].value@
                        != t[q].value@ by {
                        assert(t[p].value == s[p].value && t[q].value == s[q].value);
                    }
                    assert forall|m: int| 0 <= m < t.len() implies key_shape_ok(t[m]) by {
                        assert(t[m].user_id == s[m].user_id && t[m].service_id
                            == s[m].service_id);
                    }
                }
                Ok(k)
            },
        }
    }

    /// Partially update every key bound to one user; the count of
    /// matching rows is returned.
    pub fn key_update_many_by_user_id(
        &mut self,
        now: i64,
        user_id: u128,
        is_enabled: Option<bool>,
        is_revoked: Option<bool>,
        name: Option<&str>,
    ) -> (r: usize)
        requires
            old(self).wf(),
        ensures
            final(self).wf(),
            final(self).services == old(self).services,
            final(self).users == old(self).users,
            final(self).audits == old(self).audits,
            final(self).csrfs == old(self).csrfs,
            final(self).keys@.len() == old(self).keys@.len(),
            forall|i: int|
                0 <= i < old(self).keys@.len() ==> if old(self).keys@[i].user_id == Some(
                    user_id,
                ) {
                    key_updated(
                        old(self).keys@[i],
                        #[trigger] final(self).keys@[i],
                        now,
                        is_enabled,
                        is_revoked,
                        name,
                    )
                } else {
                    final(self).keys@[i] == old(self).keys@[i]
                },
            r as int == old(self).keys@.filter(key_user_fn(user_id)).len(),
    {
        let mut out: Vec<Key> = Vec::new();
        let mut count: usize = 0;
        let mut i: usize = 0;
        while i < self.keys.len()
            invariant
                i <= self.keys@.len(),
                out@.len() == i,
                forall|j: int|
                    0 <= j < i ==> if self.keys@[j].user_id == Some(user_id) {
                        key_updated(
                            self.keys@[j],
                            #[trigger] out@[j],
                            now,
                            is_enabled,
                            is_revoked,
                            name,
                        )
                    } else {
                        out@[j] == self.keys@[j]
                    },
                count as int == self.keys@.take(i as int).filter(key_user_fn(user_id)).len(),
            decreases self.keys@.len() - i,
        {
            proof {
                crate::util::lemma_filter_take_step(self.keys@, i as int, key_user_fn(user_id));
                self.keys@.take(i as int).lemma_filter_len(key_user_fn(user_id));
            }
            let k = &self.keys[i];
            let um = match k.user_id {
                Some(u) => u == user_id,
                None => false,
            };
            if um {
                out.push(key_apply_update(k, now, is_enabled, is_revoked, name));
                count += 1;
            } else {
                out.push(k.clone());
            }
            i += 1;
        }
        proof {
            assert(self.keys@.take(self.keys@.len() as int) =~= self.keys@);
        }
        self.keys = out;
        proof {
            let s = old(self).keys@;
            let t = self.keys@;
            assert forall|p: int, q: int| 0 <= p < q < t.len() implies t[p].id < t[q].id by {
                assert(t[p].id == s[p].id && t[q].id == s[q].id);
            }
            assert forall|p: int, q: int| 0 <= p < q < t.len() implies t[p].value@
                != t[q].value@ by {
                assert(t[p].value == s[p].value && t[q].value == s[q].value);
            }
            assert forall|m: int| 0 <= m < t.len() implies key_shape_ok(t[m]) by {
                assert(t[m].user_id == s[m].user_id && t[m].service_id == s[m].service_id);
            }
        }
        count
    }

    /// Delete the key row with this identifier; the count of deleted
    /// rows is returned.
    pub fn key_delete_by_id(&mut self, id: u128) -> (r: usize)
        requires
            old(self).wf(),
        ensures
            final(self).wf(),
            final(self).services == old(self).services,
            final(self).users == old(self).users,
            final(self).audits == old(self).audits,
            final(self).csrfs == old(self).csrfs,
            (exists|i: int| 0 <= i < old(self).keys@.len() && old(self).keys@[i].id == id)
                ==> r == 1 && (exists|i: int|
                0 <= i < old(self).keys@.len() && old(self).keys@[i].id == id
                    && final(self).keys@ == old(self).keys@.remove(i)),
            !(exists|i: int| 0 <= i < old(self).keys@.len() && old(self).keys@[i].id == id)
                ==> r == 0 && final(self).keys == old(self).keys,
    {
        match self.key_index_by_id(id) {
            None => 0,
            Some(i) => {
                self.keys.remove(i);
                proof {
                    let s = old(self).keys@;
                    crate::util::lemma_remove_pairwise(
                        s,
                        i as int,
                        |a: Key, b: Key| a.id < b.id,
                    );
                    crate::util::lemma_remove_pairwise(
                        s,
                        i as int,
                        |a: Key, b: Key| a.value@ != b.value@,
                    );
                    s.remove_ensures(i as int);
                    assert forall|m: int| 0 <= m < self.keys@.len() implies key_shape_ok(
                        self.keys@[m],
                    ) by {
                        if m < i {
                            assert(self.keys@[m] == s[m]);
                        } else {
                            assert(self.keys@[m] == s[m + 1]);
                        }
                    }
                }
                1
            },
        }
    }

    /// Delete every root key; the count of deleted rows is returned.
    pub fn key_delete_root(&mut self) -> (r: usize)
        requires
            old(self).wf(),
        ensures
            final(self).wf(),
            final(self).services == old(self).services,
            final(self).users == old(self).users,
            final(self).audits == old(self).audits,
            final(self).csrfs == old(self).csrfs,
            final(self).keys@ == old(self).keys@.filter(key_is_nonroot_fn()),
            r as int == old(self).keys@.len() - final(self).keys@.len(),
    {
        let mut out: Vec<Key> = Vec::new();
        let mut i: usize = 0;
        while i < self.keys.len()
            invariant
                i <= self.keys@.len(),
                out@ == self.keys@.take(i as int).filter(key_is_nonroot_fn()),
                out@.len() <= i,
            decreases self.keys@.len() - i,
        {
            proof {
                crate::util::lemma_filter_take_step(self.keys@, i as int, key_is_nonroot_fn());
                self.keys@.take(i as int + 1).lemma_filter_len(key_is_nonroot_fn());
            }
            let k = &self.keys[i];
            if k.service_id.is_some() || k.user_id.is_some() {
                out.push(k.clone());
            }
            i += 1;
        }
        proof {
            assert(self.keys@.take(self.keys@.len() as int) =~= self.keys@);
        }
        let removed = self.keys.len() - out.len();
        self.keys = out;
        proof {
            let s = old(self).keys@;
            crate::util::lemma_filter_pairwise(
                s,
                key_is_nonroot_fn(),
                |a: Key, b: Key| a.id < b.id,
            );
            crate::util::lemma_filter_pairwise(
                s,
                key_is_nonroot_fn(),
                |a: Key, b: Key| a.value@ != b.value@,
            );
            assert forall|m: int| 0 <= m < self.keys@.len() implies key_shape_ok(
                self.keys@[m],
            ) by {
                assert(s.contains(self.keys@[m]));
                let w = choose|w: int| 0 <= w < s.len() && s[w] == self.keys@[m];
            }
        }
        removed
    }

    /// Page of key identifiers after the cursor, ascending. A masked
    /// caller sees only keys bound to the masked tenant, so never a
    /// root key.
    pub fn key_list_where_id_gt(&self, gt: u128, limit: i64, mask: Option<u128>) -> (r: Vec<
        u128,
    >)
        requires
            self.wf(),
        ensures
            r@ == take_at_most(key_ids_gt(self.keys@, gt, mask), clamp_limit(limit)),
    {
        let mut r: Vec<u128> = Vec::new();
        let mut i: usize = 0;
        while i < self.keys.len()
            invariant
                i <= self.keys@.len(),
                r@.len() <= clamp_limit(limit),
                r@ == take_at_most(
                    self.keys@.take(i as int).filter(key_gt_pred(gt, mask)).map_values(
                        key_id_fn(),
                    ),
                    clamp_limit(limit),
                ),
            decreases self.keys@.len() - i,
        {
            let ghost pred = key_gt_pred(gt, mask);
            let ghost fi = self.keys@.take(i as int).filter(pred);
            let ghost fi1 = self.keys@.take(i as int + 1).filter(pred);
            proof {
                crate::util::lemma_filter_take_step(self.keys@, i as int, pred);
            }
            let k = &self.keys[i];
            let in_mask = match mask {
                Some(m) => match k.service_id {
                    Some(s) => s == m,
                    None => false,
                },
                None => true,
            };
            let matches_pred = k.id > gt && in_mask;
            proof {
                assert(matches_pred == pred(self.keys@[i as int]));
            }
            if matches_pred && (limit > 0 && (r.len() as u64) < (limit as u64)) {
                r.push(k.id);
                proof {
                    assert(r@.len() - 1 < clamp_limit(limit));
                    assert(fi.map_values(key_id_fn()).len() == fi.len());
                    crate::util::lemma_map_values_push(fi, self.keys@[i as int], key_id_fn());
                    crate::util::lemma_take_at_most_grow(
                        fi.map_values(key_id_fn()),
                        self.keys@[i as int].id,
                        clamp_limit(limit),
                    );
                }
            } else if matches_pred {
                proof {
                    assert(r@.len() == clamp_limit(limit));
                    crate::util::lemma_map_values_push(fi, self.keys@[i as int], key_id_fn());
                    crate::util::lemma_take_at_most_full(
                        fi.map_values(key_id_fn()),
                        self.keys@[i as int].id,
                        clamp_limit(limit),
                    );
                }
            } else {
                proof {
                    assert(fi1 == fi);
                }
            }
            i += 1;
        }
        proof {
            assert(self.keys@.take(self.keys@.len() as int) =~= self.keys@);
        }
        r
    }

    /// Page of key identifiers before the cursor, descending, under
    /// the mask.
    pub fn key_list_where_id_lt(&self, lt: u128, limit: i64, mask: Option<u128>) -> (r: Vec<
        u128,
    >)
        requires
            self.wf(),
        ensures
            r@ == take_at_most(key_ids_lt(self.keys@, lt, mask), clamp_limit(limit)),
    {
        let mut all: Vec<u128> = Vec::new();
        let mut i: usize = 0;
        while i < self.keys.len()
            invariant
                i <= self.keys@.len(),
                all@ == self.keys@.take(i as int).filter(key_lt_pred(lt, mask)).map_values(
                    key_id_fn(),
                ),
            decreases self.keys@.len() - i,
        {
            let ghost pred = key_lt_pred(lt, mask);
            let ghost fi = self.keys@.take(i as int).filter(pred);
            proof {
                crate::util::lemma_filter_take_step(self.keys@, i as int, pred);
            }
            let k = &self.keys[i];
            let in_mask = match mask {
                Some(m) => match k.service_id {
                    Some(s) => s == m,
                    None => false,
                },
                None => true,
            };
            if k.id < lt && in_mask {
                all.push(k.id);
                proof {
                    crate::util::lemma_map_values_push(fi, self.keys@[i as int], key_id_fn());
                }
            }
            i += 1;
        }
        proof {
            assert(self.keys@.take(self.keys@.len() as int) =~= self.keys@);
        }
        let ghost rev = all@.reverse();
        let mut r: Vec<u128> = Vec::new();
        let mut j: usize = all.len();
        while j > 0
            invariant
                j <= all@.len(),
                rev == all@.reverse(),
                r@.len() <= clamp_limit(limit),
                r@ == take_at_most(rev.take(all@.len() - j), clamp_limit(limit)),
            decreases j,
        {
            j -= 1;
            proof {
                let n = all@.len() as int;
                assert(rev.take(n - j) =~= rev.take(n - j - 1).push(rev[n - j - 1]));
                assert(rev[n - j - 1] == all@[j as int]);
            }
            if limit > 0 && (r.len() as u64) < (limit as u64) {
                r.push(all[j]);
                proof {
                    crate::util::lemma_take_at_most_grow(
                        rev.take(all@.len() - j - 1),
                        all@[j as int],
                        clamp_limit(limit),
                    );
                }
            } else {
                proof {
                    assert(r@.len() == clamp_limit(limit));
                    crate::util::lemma_take_at_most_full(
                        rev.take(all@.len() - j - 1),
                        all@[j as int],
                        clamp_limit(limit),
                    );
                }
            }
        }
        proof {
            assert(rev.take(all@.len() as int) =~= rev);
        }
        r
    }
}

} // verus!
