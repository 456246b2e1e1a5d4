use vstd::prelude::*;

use crate::audit::AuditBuilder;
use crate::audit::AuditPath;
use crate::audit::audit_path_str;
use crate::driver::Driver;
use crate::driver::clamp_limit;
use crate::driver::take_at_most;
use crate::driver::user_email_free;
use crate::driver::user_ids_gt;
use crate::driver::user_ids_lt;
use crate::driver::user_in_mask;
use crate::entity::Audit;
use crate::entity::Service;
use crate::entity::User;
use crate::error::CoreError;
use crate::trusted::ascii_lowercase;
use crate::trusted::hash_password;
use crate::trusted::time_now_ms;
use crate::trusted::uuid_generate;
use crate::util::dec_str;
use crate::util::lower_chars;
use crate::util::u128_to_string;

verus! {

/// Cursor query over the user table: page after `gt` or before `lt`;
/// with neither, start from the zero identifier ascending.
pub struct UserQuery {
    pub gt: Option<u128>,
    pub lt: Option<u128>,
    pub limit: Option<i64>,
}

/// What the user table answers a cursor query with, under the mask.
pub open spec fn user_list_spec(users: Seq<User>, q: UserQuery, mask: Option<u128>) -> Seq<
    u128,
> {
    let limit = match q.limit {
        Some(l) => l,
        None => crate::DEFAULT_LIST_LIMIT,
    };
    match q.gt {
        Some(gt) => take_at_most(user_ids_gt(users, gt, mask), clamp_limit(limit)),
        None => match q.lt {
            Some(lt) => take_at_most(user_ids_lt(users, lt, mask), clamp_limit(limit)),
            None => take_at_most(user_ids_gt(users, 0, mask), clamp_limit(limit)),
        },
    }
}

/// The record documents a password change of this user: typed
/// `user.password.update`, with the user as subject.
pub open spec fn is_password_audit(a: Audit, b: AuditBuilder, user_id: u128) -> bool {
    &&& a.type_@ == audit_path_str(AuditPath::UserPasswordUpdate)
    &&& a.subject matches Some(s) && s@ == dec_str(user_id)
    &&& a.data@ == "{\"changed\":true}"@
    &&& a.user_agent == b.meta.user_agent
    &&& a.remote == b.meta.remote
    &&& a.key_id == b.key_id
    &&& a.service_id == b.service_id
}

/// The audit trail `t` is `s` with one password-change event of this
/// user added — or `s` itself when the best-effort insert was refused
/// (a colliding random identifier).
pub open spec fn password_audit_written(
    s: Seq<Audit>,
    t: Seq<Audit>,
    b: AuditBuilder,
    user_id: u128,
) -> bool {
    t == s || exists|j: int, a: Audit|
        0 <= j <= s.len() && is_password_audit(a, b, user_id) && t == s.insert(j, a)
}

impl User {
    /// List user identifiers by cursor under the mask.
    pub fn list(
        driver: &Driver,
        service_mask: Option<&Service>,
        _audit: &mut AuditBuilder,
        query: &UserQuery,
    ) -> (r: Result<Vec<u128>, CoreError>)
        requires
            driver.wf(),
        ensures
            r is Ok,
            r matches Ok(ids) ==> ids@ == user_list_spec(
                driver.users@,
                *query,
                match service_mask {
                    Some(s) => Some(s.id),
                    None => None::<u128>,
                },
            ),
    {
        let limit = match query.limit {
            Some(l) => l,
            None => crate::DEFAULT_LIST_LIMIT,
        };
        let mask = match service_mask {
            Some(s) => Some(s.id),
            None => None,
        };
        match query.gt {
            Some(gt) => Ok(driver.user_list_where_id_gt(gt, limit, mask)),
            None => match query.lt {
                Some(lt) => Ok(driver.user_list_where_id_lt(lt, limit, mask)),
                None => Ok(driver.user_list_where_id_gt(0, limit, mask)),
            },
        }
    }

    /// Create a user under one service. The email is folded to
    /// lowercase before storage; one already registered for the
    /// service is refused with `Conflict`. An optional plaintext
    /// password is hashed before persistence, never stored; a password
    /// the hasher refuses is `BadRequest`.
    pub fn create(
        driver: &mut Driver,
        _audit: &mut AuditBuilder,
        is_enabled: bool,
        name: &str,
        email: &str,
        password: Option<&str>,
        service_id: u128,
    ) -> (r: Result<User, CoreError>)
        requires
            old(driver).wf(),
        ensures
            final(driver).wf(),
            final(driver).keys == old(driver).keys,
            final(driver).services == old(driver).services,
            final(driver).audits == old(driver).audits,
            final(driver).csrfs == old(driver).csrfs,
            r matches Ok(u) ==> {
                &&& user_email_free(old(driver).users@, service_id, lower_chars(email@))
                &&& u.is_enabled == is_enabled
                &&& u.name@ == name@
                &&& u.email@ == lower_chars(email@)
                &&& u.service_id == service_id
                &&& (password is Some <==> u.password_hash is Some)
                &&& exists|j: int|
                    0 <= j <= old(driver).users@.len() && final(driver).users@ == old(
                        driver,
                    ).users@.insert(j, u)
            },
            !user_email_free(old(driver).users@, service_id, lower_chars(email@)) ==> r is Err,
            r is Err ==> final(driver).users == old(driver).users,
            r matches Err(e) ==> (e == CoreError::Conflict || e == CoreError::BadRequest),
            r == Err::<User, CoreError>(CoreError::BadRequest) ==> password is Some,
    {
        let email_n = ascii_lowercase(email);
        let password_hash: Option<String> = match password {
            Some(p) => match hash_password(p) {
                Some(h) => Some(h),
                None => {
                    return Err(CoreError::BadRequest);
                },
            },
            None => None,
        };
        let id = uuid_generate();
        let now = time_now_ms();
        match driver.user_create(
            id,
            now,
            is_enabled,
            name,
            email_n.as_str(),
            password_hash,
            service_id,
        ) {
            Ok(u) => Ok(u),
            Err(_) => Err(CoreError::Conflict),
        }
    }

    /// Read a user by identifier under the mask.
    pub fn read_by_id(
        driver: &Driver,
        service_mask: Option<&Service>,
        _audit: &mut AuditBuilder,
        id: u128,
    ) -> (r: Result<Option<User>, CoreError>)
        requires
            driver.wf(),
        ensures
            r is Ok,
            r matches Ok(o) ==> {
                &&& (o is Some <==> exists|i: int|
                    0 <= i < driver.users@.len() && driver.users@[i].id == id && user_in_mask(
                        driver.users@[i],
                        match service_mask {
                            Some(s) => Some(s.id),
                            None => None::<u128>,
                        },
                    ))
                &&& (o matches Some(u) ==> u.id == id && driver.users@.contains(u))
            },
    {
        let mask = match service_mask {
            Some(s) => Some(s.id),
            None => None,
        };
        Ok(driver.user_read_by_id(id, mask))
    }

    /// Resolve a lowercased email within one service.
    pub fn read_by_email(
        driver: &Driver,
        _audit: &mut AuditBuilder,
        service_id: u128,
        email: &str,
    ) -> (r: Result<Option<User>, CoreError>)
        requires
            driver.wf(),
        ensures
            r is Ok,
            r matches Ok(o) ==> {
                &&& (o is Some <==> exists|i: int|
                    0 <= i < driver.users@.len() && driver.users@[i].service_id == service_id
                        && driver.users@[i].email@ == lower_chars(email@))
                &&& (o matches Some(u) ==> u.service_id == service_id && u.email@ == lower_chars(
                    email@,
                ) && driver.users@.contains(u))
            },
    {
        let email_n = ascii_lowercase(email);
        Ok(driver.user_read_by_email(service_id, email_n.as_str()))
    }

    /// Partially update a user under the mask; `None` leaves a field
    /// unchanged. A new password is hashed before storage, and the
    /// change is documented by a `user.password.update` audit event.
    pub fn update_by_id(
        driver: &mut Driver,
        service_mask: Option<&Service>,
        audit: &mut AuditBuilder,
        id: u128,
        is_enabled: Option<bool>,
        name: Option<&str>,
        password: Option<&str>,
    ) -> (r: Result<User, CoreError>)
        requires
            old(driver).wf(),
        ensures
            final(driver).wf(),
            final(driver).keys == old(driver).keys,
            final(driver).services == old(driver).services,
            final(driver).csrfs == old(driver).csrfs,
            *final(audit) == *old(audit),
            r matches Ok(u) ==> exists|i: int|
                0 <= i < old(driver).users@.len() && old(driver).users@[i].id == id
                    && user_in_mask(
                    old(driver).users@[i],
                    match service_mask {
                        Some(s) => Some(s.id),
                        None => None::<u128>,
                    },
                ) && final(driver).users@ == old(driver).users@.update(i, u),
            r matches Ok(u) ==> (password is Some ==> u.password_hash is Some),
            r is Ok ==> (if password is Some {
                password_audit_written(
                    old(driver).audits@,
                    final(driver).audits@,
                    *old(audit),
                    id,
                )
            } else {
                final(driver).audits == old(driver).audits
            }),
            r is Err ==> final(driver).users == old(driver).users && final(driver).audits == old(
                driver,
            ).audits,
            r matches Err(e) ==> (e == CoreError::NotFound || e == CoreError::BadRequest),
            r == Err::<User, CoreError>(CoreError::BadRequest) ==> password is Some,
            r is Ok <==> (exists|i: int|
                0 <= i < old(driver).users@.len() && old(driver).users@[i].id == id
                    && user_in_mask(
                    old(driver).users@[i],
                    match service_mask {
                        Some(s) => Some(s.id),
                        None => None::<u128>,
                    },
                )) && !(r == Err::<User, CoreError>(CoreError::BadRequest)),
    {
        let mask = match service_mask {
            Some(s) => Some(s.id),
            None => None,
        };
        let password_hash: Option<String> = match password {
            Some(p) => match hash_password(p) {
                Some(h) => Some(h),
                None => {
                    return Err(CoreError::BadRequest);
                },
            },
            None => None,
        };
        let now = time_now_ms();
        let hash_ref: Option<&str> = match &password_hash {
            Some(h) => Some(h.as_str()),
            None => None,
        };
        match driver.user_update_by_id(now, id, mask, is_enabled, name, hash_ref) {
            Ok(u) => {
                if password.is_some() {
                    let subject = u128_to_string(id);
                    let _ = audit.create(
                        driver,
                        "user.password.update",
                        None,
                        Some(subject),
                        Some(String::from_str("{\"changed\":true}")),
                    );
                }
                Ok(u)
            },
            Err(_) => Err(CoreError::NotFound),
        }
    }

    /// Delete a user under the mask; the count of deleted rows is
    /// returned.
    pub fn delete_by_id(
        driver: &mut Driver,
        service_mask: Option<&Service>,
        _audit: &mut AuditBuilder,
        id: u128,
    ) -> (r: Result<usize, CoreError>)
        requires
            old(driver).wf(),
        ensures
            final(driver).wf(),
            final(driver).keys == old(driver).keys,
            final(driver).services == old(driver).services,
            final(driver).audits == old(driver).audits,
            final(driver).csrfs == old(driver).csrfs,
            r is Ok,
            r matches Ok(count) ==> (count == 1 <==> exists|i: int|
                0 <= i < old(driver).users@.len() && old(driver).users@[i].id == id
                    && user_in_mask(
                    old(driver).users@[i],
                    match service_mask {
                        Some(s) => Some(s.id),
                        None => None::<u128>,
                    },
                )),
            r matches Ok(count) ==> (count == 0 ==> final(driver).users == old(driver).users),
            r matches Ok(count) ==> (count == 1 ==> exists|i: int|
                0 <= i < old(driver).users@.len() && old(driver).users@[i].id == id
                    && final(driver).users@ == old(driver).users@.remove(i)),
    {
        let mask = match service_mask {
            Some(s) => Some(s.id),
            None => None,
        };
        Ok(driver.user_delete_by_id(id, mask))
    }
}

} // verus!
