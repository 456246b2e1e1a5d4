use vstd::prelude::*;

use crate::driver::Driver;
use crate::driver::clamp_limit;
use crate::driver::csrf_key_free;
use crate::driver::id_visible;
use crate::driver::service_gt_pred;
use crate::driver::service_id_fn;
use crate::driver::service_id_free;
use crate::driver::service_ids_gt;
use crate::driver::service_ids_lt;
use crate::driver::service_lt_pred;
use crate::driver::service_name_free;
use crate::driver::service_name_free_except;
use crate::driver::service_present;
use crate::driver::service_row_updated;
use crate::driver::service_updated;
use crate::driver::take_at_most;
use crate::driver::user_email_free;
use crate::driver::user_gt_pred;
use crate::driver::user_id_fn;
use crate::driver::user_id_free;
use crate::driver::user_ids_gt;
use crate::driver::user_ids_lt;
use crate::driver::user_lt_pred;
use crate::driver::user_in_mask;
use crate::driver::user_updated;
use crate::entity::Csrf;
use crate::entity::Service;
use crate::entity::User;
use crate::error::DriverError;

verus! {

/// Build the partially updated copy of a service row.
fn service_apply_update(
    s0: &Service,
    now: i64,
    is_enabled: Option<bool>,
    name: Option<&str>,
) -> (v: Service)
    ensures
        service_updated(*s0, v, now, is_enabled, name),
{
    Service {
        created_at: s0.created_at,
        updated_at: now,
        id: s0.id,
        is_enabled: match is_enabled {
            Some(b) => b,
            None => s0.is_enabled,
        },
        name: match name {
            Some(n) => n.to_owned(),
            None => s0.name.clone(),
        },
        url: s0.url.clone(),
    }
}

/// Build the partially updated copy of a user row.
fn user_apply_update(
    u0: &User,
    now: i64,
    is_enabled: Option<bool>,
    name: Option<&str>,
    password_hash: Option<&str>,
) -> (v: User)
    ensures
        user_updated(*u0, v, now, is_enabled, name, password_hash),
{
    User {
        created_at: u0.created_at,
        updated_at: now,
        id: u0.id,
        is_enabled: match is_enabled {
            Some(b) => b,
            None => u0.is_enabled,
        },
        name: match name {
            Some(n) => n.to_owned(),
            None => u0.name.clone(),
        },
        email: u0.email.clone(),
        password_hash: match password_hash {
            Some(h) => Some(h.to_owned()),
            None => crate::entity::clone_opt_string(&u0.password_hash),
        },
        service_id: u0.service_id,
    }
}

impl Driver {
    /// The index of the service row with this identifier, if any.
    fn service_index_by_id(&self, id: u128) -> (r: Option<usize>)
        ensures
            r matches Some(i) ==> i < self.services@.len() && self.services@[i as int].id == id,
            r is None ==> forall|j: int|
                0 <= j < self.services@.len() ==> self.services@[j].id != id,
    {
        let mut i: usize = 0;
        while i < self.services.len()
            invariant
                i <= self.services@.len(),
                forall|j: int| 0 <= j < i ==> self.services@[j].id != id,
            decreases self.services@.len() - i,
        {
            if self.services[i].id == id {
                return Some(i);
            }
            i += 1;
        }
        None
    }

    /// Whether a service row other than `id` already holds this name.
    fn service_name_taken_except(&self, name: &str, id: u128) -> (r: bool)
        ensures
            r == !service_name_free_except(self.services@, name@, id),
    {
        let n: String = name.to_owned();
        let mut i: usize = 0;
        while i < self.services.len()
            invariant
                i <= self.services@.len(),
                n@ == name@,
                forall|j: int|
                    0 <= j < i ==> !(self.services@[j].id != id && self.services@[j].name@
                        == name@),
            decreases self.services@.len() - i,
        {
            if self.services[i].id != id && self.services[i].name == n {
                return true;
            }
            i += 1;
        }
        false
    }

    /// Insert a service row. Fails with `Conflict` when the identifier
    /// or the name is already taken.
    pub fn service_create(
        &mut self,
        id: u128,
        now: i64,
        is_enabled: bool,
        name: &str,
        url: &str,
    ) -> (r: Result<Service, DriverError>)
        requires
            old(self).wf(),
        ensures
            final(self).wf(),
            final(self).keys == old(self).keys,
            final(self).users == old(self).users,
            final(self).audits == old(self).audits,
            final(self).csrfs == old(self).csrfs,
            r is Ok <==> service_id_free(old(self).services@, id) && service_name_free(
                old(self).services@,
                name@,
            ),
            r matches Ok(s) ==> {
                &&& s.id == id
                &&& s.created_at == now
                &&& s.updated_at == now
                &&& s.is_enabled == is_enabled
                &&& s.name@ == name@
                &&& s.url@ == url@
                &&& crate::driver::row_inserted(
                    old(self).services@,
                    final(self).services@,
                    s,
                )
            },
            r is Err ==> final(self).services == old(self).services && r == Err::<
                Service,
                DriverError,
            >(DriverError::Conflict),
    {
        if self.service_name_taken_except(name, id) {
            proof {
                let j = choose|j: int|
                    0 <= j < self.services@.len() && self.services@[j].id != id
                        && self.services@[j].name@ == name@;
                assert(!service_name_free(self.services@, name@));
            }
            return Err(DriverError::Conflict);
        }
        let mut pos: usize = 0;
        while pos < self.services.len() && self.services[pos].id < id
            invariant
                pos <= self.services@.len(),
                forall|j: int| 0 <= j < pos ==> self.services@[j].id < id,
                old(self).wf(),
                *self == *old(self),
            decreases self.services@.len() - pos,
        {
            pos += 1;
        }
        if pos < self.services.len() && self.services[pos].id == id {
            return Err(DriverError::Conflict);
        }
        proof {
            assert forall|j: int| 0 <= j < old(self).services@.len() implies old(
                self,
            ).services@[j].id != id by {
                if j >= pos {
                    assert(old(self).services@[pos as int].id <= old(self).services@[j].id);
                }
            }
            assert forall|j: int| 0 <= j < old(self).services@.len() implies old(
                self,
            ).services@[j].name@ != name@ by {}
        }
        let s = Service {
            created_at: now,
            updated_at: now,
            id,
            is_enabled,
            name: name.to_owned(),
            url: url.to_owned(),
        };
        let sc = s.clone();
        self.services.insert(pos, sc);
        proof {
            let sv = old(self).services@;
            let t = self.services@;
            sv.insert_ensures(pos as int, s);
            assert forall|p: int, q: int| 0 <= p < q < t.len() implies t[p].id < t[q].id by {
                if q == pos {
                    assert(t[p] == sv[p]);
                } else if p == pos {
                    assert(t[q] == sv[q - 1]);
                    assert(sv[q - 1].id >= sv[pos as int].id);
                } else if q < pos {
                    assert(t[p] == sv[p] && t[q] == sv[q]);
                } else if p > pos {
                    assert(t[p] == sv[p - 1] && t[q] == sv[q - 1]);
                } else {
                    assert(t[p] == sv[p] && t[q] == sv[q - 1]);
                }
            }
            assert forall|p: int, q: int| 0 <= p < q < t.len() implies t[p].name@
                != t[q].name@ by {}
            assert(t == sv.insert(pos as int, s));
            assert(crate::driver::row_inserted(sv, t, s));
        }
        Ok(s)
    }

    /// Read a service row by identifier. A masked caller sees only the
    /// masked tenant itself.
    pub fn service_read_by_id(&self, id: u128, mask: Option<u128>) -> (r: Option<Service>)
        requires
            self.wf(),
        ensures
            r is Some <==> id_visible(id, mask) && service_present(self.services@, id),
            r matches Some(s) ==> s.id == id && self.services@.contains(s),
    {
        let visible = match mask {
            None => true,
            Some(m) => id == m,
        };
        if !visible {
            return None;
        }
        match self.service_index_by_id(id) {
            None => None,
            Some(i) => {
                proof {
                    assert(self.services@.contains(self.services@[i as int]));
                }
                Some(self.services[i].clone())
            },
        }
    }

    /// Page of service identifiers after the cursor, ascending.
    pub fn service_list_where_id_gt(&self, gt: u128, limit: i64) -> (r: Vec<u128>)
        requires
            self.wf(),
        ensures
            r@ == take_at_most(service_ids_gt(self.services@, gt), clamp_limit(limit)),
    {
        let mut r: Vec<u128> = Vec::new();
        let mut i: usize = 0;
        while i < self.services.len()
            invariant
                i <= self.services@.len(),
                r@.len() <= clamp_limit(limit),
                r@ == take_at_most(
                    self.services@.take(i as int).filter(service_gt_pred(gt)).map_values(
                        service_id_fn(),
                    ),
                    clamp_limit(limit),
                ),
            decreases self.services@.len() - i,
        {
            let ghost pred = service_gt_pred(gt);
            let ghost fi = self.services@.take(i as int).filter(pred);
            proof {
                crate::util::lemma_filter_take_step(self.services@, i as int, pred);
            }
            let s = &self.services[i];
            if s.id > gt && (limit > 0 && (r.len() as u64) < (limit as u64)) {
                r.push(s.id);
                proof {
                    assert(fi.map_values(service_id_fn()).len() == fi.len());
                    crate::util::lemma_map_values_push(
                        fi,
                        self.services@[i as int],
                        service_id_fn(),
                    );
                    crate::util::lemma_take_at_most_grow(
                        fi.map_values(service_id_fn()),
                        self.services@[i as int].id,
                        clamp_limit(limit),
                    );
                }
            } else if s.id > gt {
                proof {
                    assert(r@.len() == clamp_limit(limit));
                    crate::util::lemma_map_values_push(
                        fi,
                        self.services@[i as int],
                        service_id_fn(),
                    );
                    crate::util::lemma_take_at_most_full(
                        fi.map_values(service_id_fn()),
                        self.services@[i as int].id,
                        clamp_limit(limit),
                    );
                }
            }
            i += 1;
        }
        proof {
            assert(self.services@.take(self.services@.len() as int) =~= self.services@);
        }
        r
    }

    /// Page of service identifiers before the cursor, descending.
    pub fn service_list_where_id_lt(&self, lt: u128, limit: i64) -> (r: Vec<u128>)
        requires
            self.wf(),
        ensures
            r@ == take_at_most(service_ids_lt(self.services@, lt), clamp_limit(limit)),
    {
        let mut all: Vec<u128> = Vec::new();
        let mut i: usize = 0;
        while i < self.services.len()
            invariant
                i <= self.services@.len(),
                all@ == self.services@.take(i as int).filter(service_lt_pred(lt)).map_values(
                    service_id_fn(),
                ),
            decreases self.services@.len() - i,
        {
            let ghost pred = service_lt_pred(lt);
            let ghost fi = self.services@.take(i as int).filter(pred);
            proof {
                crate::util::lemma_filter_take_step(self.services@, i as int, pred);
            }
            let s = &self.services[i];
            if s.id < lt {
                all.push(s.id);
                proof {
                    crate::util::lemma_map_values_push(
                        fi,
                        self.services@[i as int],
                        service_id_fn(),
                    );
                }
            }
            i += 1;
        }
        proof {
            assert(self.services@.take(self.services@.len() as int) =~= self.services@);
        }
        let ghost rev = all@.reverse();
        let mut r: Vec<u128> = Vec::new();
        let mut j: usize = all.len();
        while j > 0
            invariant
                j <= all@.len(),
                rev == all@.reverse(),
                r@.len() <= clamp_limit(limit),
                r@ == take_at_most(rev.take(all@.len() - j), clamp_limit(limit)),
            decreases j,
        {
            j -= 1;
            proof {
                let n = all@.len() as int;
                assert(rev.take(n - j) =~= rev.take(n - j - 1).push(rev[n - j - 1]));
                assert(rev[n - j - 1] == all@[j as int]);
            }
            if limit > 0 && (r.len() as u64) < (limit as u64) {
                r.push(all[j]);
                proof {
                    crate::util::lemma_take_at_most_grow(
                        rev.take(all@.len() - j - 1),
                        all@[j as int],
                        clamp_limit(limit),
                    );
                }
            } else {
                proof {
                    assert(r@.len() == clamp_limit(limit));
                    crate::util::lemma_take_at_most_full(
                        rev.take(all@.len() - j - 1),
                        all@[j as int],
                        clamp_limit(limit),
                    );
                }
            }
        }
        proof {
            assert(rev.take(all@.len() as int) =~= rev);
        }
        r
    }

    /// Partially update a service row under the mask. Fails with
    /// `NotFound` when the row is absent or hidden by the mask, and
    /// with `Conflict` when the new name is already taken.
    pub fn service_update_by_id(
        &mut self,
        now: i64,
        id: u128,
        mask: Option<u128>,
        is_enabled: Option<bool>,
        name: Option<&str>,
    ) -> (r: Result<Service, DriverError>)
        requires
            old(self).wf(),
        ensures
            final(self).wf(),
            final(self).keys == old(self).keys,
            final(self).users == old(self).users,
            final(self).audits == old(self).audits,
            final(self).csrfs == old(self).csrfs,
            r is Ok <==> {
                &&& id_visible(id, mask)
                &&& service_present(old(self).services@, id)
                &&& (match name {
                    Some(n) => service_name_free_except(old(self).services@, n@, id),
                    None => true,
                })
            },
            r matches Ok(v) ==> service_row_updated(
                old(self).services@,
                final(self).services@,
                id,
                v,
                now,
                is_enabled,
                name,
            ),
            r is Err ==> final(self).services == old(self).services,
            r matches Err(e) ==> e == (if !(id_visible(id, mask) && service_present(
                old(self).services@,
                id,
            )) {
                DriverError::NotFound
            } else {
                DriverError::Conflict
            }),
    {
        let visible = match mask {
            None => true,
            Some(m) => id == m,
        };
        if !visible {
            return Err(DriverError::NotFound);
        }
        match self.service_index_by_id(id) {
            None => Err(DriverError::NotFound),
            Some(i) => {
                let name_conflict = match name {
                    Some(n) => self.service_name_taken_except(n, id),
                    None => false,
                };
                if name_conflict {
                    return Err(DriverError::Conflict);
                }
                let v = service_apply_update(&self.services[i], now, is_enabled, name);
                let vc = v.clone();
                self.services.remove(i);
                self.services.insert(i, vc);
                proof {
                    let s = old(self).services@;
                    let t = self.services@;
                    assert(t =~= s.update(i as int, v));
                    assert forall|p: int, q: int| 0 <= p < q < t.len() implies t[p].id
                        < t[q].id by {
                        assert(t[p].id == s[p].id && t[q].id == s[q].id);
                    }
                    assert forall|p: int, q: int| 0 <= p < q < t.len() implies t[p].name@
                        != t[q].name@ by {
                        if p != i && q != i {
                            assert(t[p].name == s[p].name && t[q].name == s[q].name);
                        } else if p == i {
                            assert(t[q].name == s[q].name);
                            assert(s[q].id != id);
                        } else {
                            assert(t[p].name == s[p].name);
                            assert(s[p].id != id);
                        }
                    }
                    assert((i as int) < s.len() && s[i as int].id == id && service_updated(
                        s[i as int],
                        v,
                        now,
                        is_enabled,
                        name,
                    ) && self.services@ == s.update(i as int, v));
                    assert(service_row_updated(
                        old(self).services@,
                        self.services@,
                        id,
                        v,
                        now,
                        is_enabled,
                        name,
                    ));
                }
                Ok(v)
            },
        }
    }

    /// Delete the service row with this identifier under the mask; the
    /// count of deleted rows is returned.
    pub fn service_delete_by_id(&mut self, id: u128, mask: Option<u128>) -> (r: usize)
        requires
            old(self).wf(),
        ensures
            final(self).wf(),
            final(self).keys == old(self).keys,
            final(self).users == old(self).users,
            final(self).audits == old(self).audits,
            final(self).csrfs == old(self).csrfs,
            (id_visible(id, mask) && service_present(old(self).services@, id)) ==> r == 1
                && (exists|i: int|
                0 <= i < old(self).services@.len() && old(self).services@[i].id == id
                    && final(self).services@ == old(self).services@.remove(i)),
            !(id_visible(id, mask) && service_present(old(self).services@, id)) ==> r == 0
                && final(self).services == old(self).services,
    {
        let visible = match mask {
            None => true,
            Some(m) => id == m,
        };
        if !visible {
            return 0;
        }
        match self.service_index_by_id(id) {
            None => 0,
            Some(i) => {
                self.services.remove(i);
                proof {
                    let s = old(self).services@;
                    crate::util::lemma_remove_pairwise(
                        s,
                        i as int,
                        |a: Service, b: Service| a.id < b.id,
                    );
                    crate::util::lemma_remove_pairwise(
                        s,
                        i as int,
                        |a: Service, b: Service| a.name@ != b.name@,
                    );
                }
                1
            },
        }
    }

    /// The index of the user row with this identifier, if any.
    fn user_index_by_id(&self, id: u128) -> (r: Option<usize>)
        ensures
            r matches Some(i) ==> i < self.users@.len() && self.users@[i as int].id == id,
            r is None ==> forall|j: int| 0 <= j < self.users@.len() ==> self.users@[j].id != id,
    {
        let mut i: usize = 0;
        while i < self.users.len()
            invariant
                i <= self.users@.len(),
                forall|j: int| 0 <= j < i ==> self.users@[j].id != id,
            decreases self.users@.len() - i,
        {
            if self.users[i].id == id {
                return Some(i);
            }
            i += 1;
        }
        None
    }

    /// Insert a user row. Fails with `Conflict` when the identifier is
    /// taken or the email is already registered for this service.
    pub fn user_create(
        &mut self,
        id: u128,
        now: i64,
        is_enabled: bool,
        name: &str,
        email: &str,
        password_hash: Option<String>,
        service_id: u128,
    ) -> (r: Result<User, DriverError>)
        requires
            old(self).wf(),
        ensures
            final(self).wf(),
            final(self).keys == old(self).keys,
            final(self).services == old(self).services,
            final(self).audits == old(self).audits,
            final(self).csrfs == old(self).csrfs,
            r is Ok <==> user_id_free(old(self).users@, id) && user_email_free(
                old(self).users@,
                service_id,
                email@,
            ),
            r matches Ok(u) ==> {
                &&& u.id == id
                &&& u.created_at == now
                &&& u.updated_at == now
                &&& u.is_enabled == is_enabled
                &&& u.name@ == name@
                &&& u.email@ == email@
                &&& u.password_hash == password_hash
                &&& u.service_id == service_id
                &&& exists|j: int|
                    0 <= j <= old(self).users@.len() && final(self).users@ == old(
                        self,
                    ).users@.insert(j, u)
            },
            r is Err ==> final(self).users == old(self).users && r == Err::<
                User,
                DriverError,
            >(DriverError::Conflict),
    {
        let e: String = email.to_owned();
        let mut i: usize = 0;
        while i < self.users.len()
            invariant
                i <= self.users@.len(),
                e@ == email@,
                old(self).wf(),
                *self == *old(self),
                forall|j: int|
                    0 <= j < i ==> !(self.users@[j].service_id == service_id
                        && self.users@[j].email@ == email@),
            decreases self.users@.len() - i,
        {
            if self.users[i].service_id == service_id && self.users[i].email == e {
                proof {
                    assert(!user_email_free(self.users@, service_id, email@));
                }
                return Err(DriverError::Conflict);
            }
            i += 1;
        }
        let mut pos: usize = 0;
        while pos < self.users.len() && self.users[pos].id < id
            invariant
                pos <= self.users@.len(),
                forall|j: int| 0 <= j < pos ==> self.users@[j].id < id,
                old(self).wf(),
                *self == *old(self),
            decreases self.users@.len() - pos,
        {
            pos += 1;
        }
        if pos < self.users.len() && self.users[pos].id == id {
            return Err(DriverError::Conflict);
        }
        proof {
            assert forall|j: int| 0 <= j < old(self).users@.len() implies old(
                self,
            ).users@[j].id != id by {
                if j >= pos {
                    assert(old(self).users@[pos as int].id <= old(self).users@[j].id);
                }
            }
        }
        let u = User {
            created_at: now,
            updated_at: now,
            id,
            is_enabled,
            name: name.to_owned(),
            email: e,
            password_hash,
            service_id,
        };
        let uc = u.clone();
        self.users.insert(pos, uc);
        proof {
            let s = old(self).users@;
            let t = self.users@;
            s.insert_ensures(pos as int, u);
            assert forall|p: int, q: int| 0 <= p < q < t.len() implies t[p].id < t[q].id by {
                if q == pos {
                    assert(t[p] == s[p]);
                } else if p == pos {
                    assert(t[q] == s[q - 1]);
                    assert(s[q - 1].id >= s[pos as int].id);
                } else if q < pos {
                    assert(t[p] == s[p] && t[q] == s[q]);
                } else if p > pos {
                    assert(t[p] == s[p - 1] && t[q] == s[q - 1]);
                } else {
                    assert(t[p] == s[p] && t[q] == s[q - 1]);
                }
            }
            assert forall|p: int, q: int| 0 <= p < q < t.len() implies !(t[p].service_id
                == t[q].service_id && t[p].email@ == t[q].email@) by {}
        }
        Ok(u)
    }

    /// Read a user row by identifier under the mask.
    pub fn user_read_by_id(&self, id: u128, mask: Option<u128>) -> (r: Option<User>)
        requires
            self.wf(),
        ensures
            r is Some <==> exists|i: int|
                0 <= i < self.users@.len() && self.users@[i].id == id && user_in_mask(
                    self.users@[i],
                    mask,
                ),
            r matches Some(u) ==> u.id == id && user_in_mask(u, mask) && self.users@.contains(u),
    {
        match self.user_index_by_id(id) {
            None => None,
            Some(i) => {
                let u = &self.users[i];
                let visible = match mask {
                    None => true,
                    Some(m) => u.service_id == m,
                };
                proof {
                    assert(self.users@.contains(self.users@[i as int]));
                    assert forall|j: int|
                        0 <= j < self.users@.len() && self.users@[j].id == id implies j
                        == i by {
                        if j < i {
                            assert(self.users@[j].id < self.users@[i as int].id);
                        } else if j > i {
                            assert(self.users@[i as int].id < self.users@[j].id);
                        }
                    }
                }
                if visible {
                    Some(u.clone())
                } else {
                    None
                }
            },
        }
    }

    /// Read the user row registered under this email for this service.
    pub fn user_read_by_email(&self, service_id: u128, email: &str) -> (r: Option<User>)
        requires
            self.wf(),
        ensures
            r is Some <==> exists|i: int|
                0 <= i < self.users@.len() && self.users@[i].service_id == service_id
                    && self.users@[i].email@ == email@,
            r matches Some(u) ==> u.service_id == service_id && u.email@ == email@
                && self.users@.contains(u),
    {
        let e: String = email.to_owned();
        let mut i: usize = 0;
        while i < self.users.len()
            invariant
                i <= self.users@.len(),
                e@ == email@,
                forall|j: int|
                    0 <= j < i ==> !(self.users@[j].service_id == service_id
                        && self.users@[j].email@ == email@),
            decreases self.users@.len() - i,
        {
            if self.users[i].service_id == service_id && self.users[i].email == e {
                proof {
                    assert(self.users@.contains(self.users@[i as int]));
                }
                return Some(self.users[i].clone());
            }
            i += 1;
        }
        None
    }

    /// Page of user identifiers after the cursor, ascending, under the
    /// mask.
    pub fn user_list_where_id_gt(&self, gt: u128, limit: i64, mask: Option<u128>) -> (r: Vec<
        u128,
    >)
        requires
            self.wf(),
        ensures
            r@ == take_at_most(user_ids_gt(self.users@, gt, mask), clamp_limit(limit)),
    {
        let mut r: Vec<u128> = Vec::new();
        let mut i: usize = 0;
        while i < self.users.len()
            invariant
                i <= self.users@.len(),
                r@.len() <= clamp_limit(limit),
                r@ == take_at_most(
                    self.users@.take(i as int).filter(user_gt_pred(gt, mask)).map_values(
                        user_id_fn(),
                    ),
                    clamp_limit(limit),
                ),
            decreases self.users@.len() - i,
        {
            let ghost pred = user_gt_pred(gt, mask);
            let ghost fi = self.users@.take(i as int).filter(pred);
            proof {
                crate::util::lemma_filter_take_step(self.users@, i as int, pred);
            }
            let u = &self.users[i];
            let in_mask = match mask {
                Some(m) => u.service_id == m,
                None => true,
            };
            if u.id > gt && in_mask && (limit > 0 && (r.len() as u64) < (limit as u64)) {
                r.push(u.id);
                proof {
                    assert(fi.map_values(user_id_fn()).len() == fi.len());
                    crate::util::lemma_map_values_push(fi, self.users@[i as int], user_id_fn());
                    crate::util::lemma_take_at_most_grow(
                        fi.map_values(user_id_fn()),
                        self.users@[i as int].id,
                        clamp_limit(limit),
                    );
                }
            } else if u.id > gt && in_mask {
                proof {
                    assert(r@.len() == clamp_limit(limit));
                    crate::util::lemma_map_values_push(fi, self.users@[i as int], user_id_fn());
                    crate::util::lemma_take_at_most_full(
                        fi.map_values(user_id_fn()),
                        self.users@[i as int].id,
                        clamp_limit(limit),
                    );
                }
            }
            i += 1;
        }
        proof {
            assert(self.users@.take(self.users@.len() as int) =~= self.users@);
        }
        r
    }

    /// Page of user identifiers before the cursor, descending, under
    /// the mask.
    pub fn user_list_where_id_lt(&self, lt: u128, limit: i64, mask: Option<u128>) -> (r: Vec<
        u128,
    >)
        requires
            self.wf(),
        ensures
            r@ == take_at_most(user_ids_lt(self.users@, lt, mask), clamp_limit(limit)),
    {
        let mut all: Vec<u128> = Vec::new();
        let mut i: usize = 0;
        while i < self.users.len()
            invariant
                i <= self.users@.len(),
                all@ == self.users@.take(i as int).filter(user_lt_pred(lt, mask)).map_values(
                    user_id_fn(),
                ),
            decreases self.users@.len() - i,
        {
            let ghost pred = user_lt_pred(lt, mask);
            let ghost fi = self.users@.take(i as int).filter(pred);
            proof {
                crate::util::lemma_filter_take_step(self.users@, i as int, pred);
            }
            let u = &self.users[i];
            let in_mask = match mask {
                Some(m) => u.service_id == m,
                None => true,
            };
            if u.id < lt && in_mask {
                all.push(u.id);
                proof {
                    crate::util::lemma_map_values_push(fi, self.users@[i as int], user_id_fn());
                }
            }
            i += 1;
        }
        proof {
            assert(self.users@.take(self.users@.len() as int) =~= self.users@);
        }
        let ghost rev = all@.reverse();
        let mut r: Vec<u128> = Vec::new();
        let mut j: usize = all.len();
        while j > 0
            invariant
                j <= all@.len(),
                rev == all@.reverse(),
                r@.len() <= clamp_limit(limit),
                r@ == take_at_most(rev.take(all@.len() - j), clamp_limit(limit)),
            decreases j,
        {
            j -= 1;
            proof {
                let n = all@.len() as int;
                assert(rev.take(n - j) =~= rev.take(n - j - 1).push(rev[n - j - 1]));
                assert(rev[n - j - 1] == all@[j as int]);
            }
            if limit > 0 && (r.len() as u64) < (limit as u64) {
                r.push(all[j]);
                proof {
                    crate::util::lemma_take_at_most_grow(
                        rev.take(all@.len() - j - 1),
                        all@[j as int],
                        clamp_limit(limit),
                    );
                }
            } else {
                proof {
                    assert(r@.len() == clamp_limit(limit));
                    crate::util::lemma_take_at_most_full(
                        rev.take(all@.len() - j - 1),
                        all@[j as int],
                        clamp_limit(limit),
                    );
                }
            }
        }
        proof {
            assert(rev.take(all@.len() as int) =~= rev);
        }
        r
    }

    /// Partially update a user row under the mask. Fails with
    /// `NotFound` when the row is absent or hidden by the mask.
    pub fn user_update_by_id(
        &mut self,
        now: i64,
        id: u128,
        mask: Option<u128>,
        is_enabled: Option<bool>,
        name: Option<&str>,
        password_hash: Option<&str>,
    ) -> (r: Result<User, DriverError>)
        requires
            old(self).wf(),
        ensures
            final(self).wf(),
            final(self).keys == old(self).keys,
            final(self).services == old(self).services,
            final(self).audits == old(self).audits,
            final(self).csrfs == old(self).csrfs,
            r is Ok <==> exists|i: int|
                0 <= i < old(self).users@.len() && old(self).users@[i].id == id && user_in_mask(
                    old(self).users@[i],
                    mask,
                ),
            r matches Ok(v) ==> exists|i: int|
                0 <= i < old(self).users@.len() && old(self).users@[i].id == id && user_in_mask(
                    old(self).users@[i],
                    mask,
                ) && user_updated(old(self).users@[i], v, now, is_enabled, name, password_hash)
                    && final(self).users@ == old(self).users@.update(i, v),
            r is Err ==> final(self).users == old(self).users && r == Err::<
                User,
                DriverError,
            >(DriverError::NotFound),
    {
        match self.user_index_by_id(id) {
            None => Err(DriverError::NotFound),
            Some(i) => {
                let visible = match mask {
                    None => true,
                    Some(m) => self.users[i].service_id == m,
                };
                proof {
                    assert forall|j: int|
                        0 <= j < self.users@.len() && self.users@[j].id == id implies j
                        == i by {
                        if j < i {
                            assert(self.users@[j].id < self.users@[i as int].id);
                        } else if j > i {
                            assert(self.users@[i as int].id < self.users@[j].id);
                        }
                    }
                }
                if !visible {
                    return Err(DriverError::NotFound);
                }
                let v = user_apply_update(
                    &self.users[i],
                    now,
                    is_enabled,
                    name,
                    password_hash,
                );
                let vc = v.clone();
                self.users.remove(i);
                self.users.insert(i, vc);
                proof {
                    let s = old(self).users@;
                    let t = self.users@;
                    assert(t =~= s.update(i as int, v));
                    assert forall|p: int, q: int| 0 <= p < q < t.len() implies t[p].id
                        < t[q].id by {
                        assert(t[p].id == s[p].id && t[q].id == s[q].id);
                    }
                    assert forall|p: int, q: int| 0 <= p < q < t.len() implies !(t[p].service_id
                        == t[q].service_id && t[p].email@ == t[q].email@) by {
                        assert(t[p].service_id == s[p].service_id && t[q].service_id
                            == s[q].service_id);
                        assert(t[p].email == s[p].email && t[q].email == s[q].email);
                    }
                }
                Ok(v)
            },
        }
    }

    /// Delete the user row with this identifier under the mask; the
    /// count of deleted rows is returned.
    pub fn user_delete_by_id(&mut self, id: u128, mask: Option<u128>) -> (r: usize)
        requires
            old(self).wf(),
        ensures
            final(self).wf(),
            final(self).keys == old(self).keys,
            final(self).services == old(self).services,
            final(self).audits == old(self).audits,
            final(self).csrfs == old(self).csrfs,
            (exists|i: int|
                0 <= i < old(self).users@.len() && old(self).users@[i].id == id && user_in_mask(
                    old(self).users@[i],
                    mask,
                )) ==> r == 1 && (exists|i: int|
                0 <= i < old(self).users@.len() && old(self).users@[i].id == id
                    && final(self).users@ == old(self).users@.remove(i)),
            !(exists|i: int|
                0 <= i < old(self).users@.len() && old(self).users@[i].id == id && user_in_mask(
                    old(self).users@[i],
                    mask,
                )) ==> r == 0 && final(self).users == old(self).users,
    {
        match self.user_index_by_id(id) {
            None => 0,
            Some(i) => {
                let visible = match mask {
                    None => true,
                    Some(m) => self.users[i].service_id == m,
                };
                proof {
                    assert forall|j: int|
                        0 <= j < self.users@.len() && self.users@[j].id == id implies j
                        == i by {
                        if j < i {
                            assert(self.users@[j].id < self.users@[i as int].id);
                        } else if j > i {
                            assert(self.users@[i as int].id < self.users@[j].id);
                        }
                    }
                }
                if !visible {
                    return 0;
                }
                self.users.remove(i);
                proof {
                    let s = old(self).users@;
                    crate::util::lemma_remove_pairwise(
                        s,
                        i as int,
                        |a: User, b: User| a.id < b.id,
                    );
                    crate::util::lemma_remove_pairwise(
                        s,
                        i as int,
                        |a: User, b: User| !(a.service_id == b.service_id && a.email@
                            == b.email@),
                    );
                }
                1
            },
        }
    }

    /// Persist a single-use OAuth2 `state` record. Fails with
    /// `Conflict` when the state value is already present.
    pub fn csrf_create(
        &mut self,
        key: &str,
        service_id: u128,
        provider: &str,
        now: i64,
        expires_at: i64,
    ) -> (r: Result<(), DriverError>)
        requires
            old(self).wf(),
        ensures
            final(self).wf(),
            final(self).keys == old(self).keys,
            final(self).services == old(self).services,
            final(self).users == old(self).users,
            final(self).audits == old(self).audits,
            r is Ok <==> csrf_key_free(old(self).csrfs@, key@),
            r is Ok ==> exists|c: Csrf|
                final(self).csrfs@ == old(self).csrfs@.push(c) && c.key@ == key@ && c.service_id
                    == service_id && c.provider@ == provider@ && c.created_at == now
                    && c.expires_at == expires_at,
            r is Err ==> final(self).csrfs == old(self).csrfs && r == Err::<
                (),
                DriverError,
            >(DriverError::Conflict),
    {
        let k: String = key.to_owned();
        let mut i: usize = 0;
        while i < self.csrfs.len()
            invariant
                i <= self.csrfs@.len(),
                k@ == key@,
                old(self).wf(),
                *self == *old(self),
                forall|j: int| 0 <= j < i ==> self.csrfs@[j].key@ != key@,
            decreases self.csrfs@.len() - i,
        {
            if self.csrfs[i].key == k {
                return Err(DriverError::Conflict);
            }
            i += 1;
        }
        let c = Csrf {
            created_at: now,
            key: k,
            service_id,
            provider: provider.to_owned(),
            expires_at,
        };
        self.csrfs.push(c);
        proof {
            let s = old(self).csrfs@;
            let t = self.csrfs@;
            assert forall|p: int, q: int| 0 <= p < q < t.len() implies t[p].key@
                != t[q].key@ by {}
        }
        Ok(())
    }

    /// Consume the `state` record with this value: it is removed
    /// whether or not the caller accepts it, so a second presentation
    /// of the same state finds nothing.
    pub fn csrf_pop(&mut self, key: &str) -> (r: Option<Csrf>)
        requires
            old(self).wf(),
        ensures
            final(self).wf(),
            final(self).keys == old(self).keys,
            final(self).services == old(self).services,
            final(self).users == old(self).users,
            final(self).audits == old(self).audits,
            r is Some <==> exists|i: int|
                0 <= i < old(self).csrfs@.len() && old(self).csrfs@[i].key@ == key@,
            r matches Some(c) ==> c.key@ == key@ && old(self).csrfs@.contains(c) && (exists|
                i: int,
            |
                0 <= i < old(self).csrfs@.len() && old(self).csrfs@[i] == c
                    && final(self).csrfs@ == old(self).csrfs@.remove(i)),
            forall|j: int| 0 <= j < final(self).csrfs@.len() ==> final(self).csrfs@[j].key@ != key@,
            r is None ==> final(self).csrfs == old(self).csrfs,
    {
        let k: String = key.to_owned();
        let mut i: usize = 0;
        while i < self.csrfs.len()
            invariant
                i <= self.csrfs@.len(),
                k@ == key@,
                self.wf(),
                self.csrfs == old(self).csrfs,
                self.keys == old(self).keys,
                self.services == old(self).services,
                self.users == old(self).users,
                self.audits == old(self).audits,
                forall|j: int| 0 <= j < i ==> self.csrfs@[j].key@ != key@,
            decreases self.csrfs@.len() - i,
        {
            if self.csrfs[i].key == k {
                let ghost s = self.csrfs@;
                let c = self.csrfs.remove(i);
                proof {
                    assert(s.contains(s[i as int]));
                    crate::util::lemma_remove_pairwise(
                        s,
                        i as int,
                        |a: Csrf, b: Csrf| a.key@ != b.key@,
                    );
                    s.remove_ensures(i as int);
                    assert forall|j: int|
                        0 <= j < self.csrfs@.len() implies self.csrfs@[j].key@ != key@ by {
                        if j < i {
                            assert(self.csrfs@[j] == s[j]);
                        } else {
                            assert(self.csrfs@[j] == s[j + 1]);
                            assert(s[j + 1].key@ != s[i as int].key@);
                        }
                    }
                }
                return Some(c);
            }
            i += 1;
        }
        None
    }
}

} // verus!
