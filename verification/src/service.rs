use vstd::prelude::*;

use crate::audit::AuditBuilder;
use crate::driver::Driver;
use crate::driver::clamp_limit;
use crate::driver::id_visible;
use crate::driver::service_ids_gt;
use crate::driver::service_ids_lt;
use crate::driver::service_name_free;
use crate::driver::service_name_free_except;
use crate::driver::service_present;
use crate::driver::service_row_updated;
use crate::driver::take_at_most;
use crate::entity::Service;
use crate::error::CoreError;
use crate::error::DriverError;
use crate::trusted::time_now_ms;
use crate::trusted::uuid_generate;

verus! {

/// Cursor query over the service table: page after `gt` or before
/// `lt`; with neither, start from the zero identifier ascending.
pub struct ServiceQuery {
    pub gt: Option<u128>,
    pub lt: Option<u128>,
    pub limit: Option<i64>,
}

impl Clone for ServiceQuery {
    fn clone(&self) -> (r: Self)
        ensures
            r == *self,
    {
        ServiceQuery { gt: self.gt, lt: self.lt, limit: self.limit }
    }
}

/// What the service table answers a cursor query with.
pub open spec fn service_list_spec(services: Seq<Service>, q: ServiceQuery) -> Seq<u128> {
    let limit = match q.limit {
        Some(l) => l,
        None => crate::DEFAULT_LIST_LIMIT,
    };
    match q.gt {
        Some(gt) => take_at_most(service_ids_gt(services, gt), clamp_limit(limit)),
        None => match q.lt {
            Some(lt) => take_at_most(service_ids_lt(services, lt), clamp_limit(limit)),
            None => take_at_most(service_ids_gt(services, 0), clamp_limit(limit)),
        },
    }
}

impl Service {
    /// List service identifiers by cursor. Reserved to root callers by
    /// the routes above it.
    pub fn list(driver: &Driver, _audit: &mut AuditBuilder, query: &ServiceQuery) -> (r: Result<
        Vec<u128>,
        CoreError,
    >)
        requires
            driver.wf(),
        ensures
            r is Ok,
            r matches Ok(ids) ==> ids@ == service_list_spec(driver.services@, *query),
    {
        let limit = match query.limit {
            Some(l) => l,
            None => crate::DEFAULT_LIST_LIMIT,
        };
        match query.gt {
            Some(gt) => Ok(driver.service_list_where_id_gt(gt, limit)),
            None => match query.lt {
                Some(lt) => Ok(driver.service_list_where_id_lt(lt, limit)),
                None => Ok(driver.service_list_where_id_gt(0, limit)),
            },
        }
    }

    /// Create a service. A name already in use is refused with
    /// `Conflict`.
    pub fn create(
        driver: &mut Driver,
        _audit: &mut AuditBuilder,
        is_enabled: bool,
        name: &str,
        url: &str,
    ) -> (r: Result<Service, CoreError>)
        requires
            old(driver).wf(),
        ensures
            final(driver).wf(),
            final(driver).keys == old(driver).keys,
            final(driver).users == old(driver).users,
            final(driver).audits == old(driver).audits,
            final(driver).csrfs == old(driver).csrfs,
            r matches Ok(s) ==> {
                &&& service_name_free(old(driver).services@, name@)
                &&& s.is_enabled == is_enabled
                &&& s.name@ == name@
                &&& s.url@ == url@
                &&& exists|j: int|
                    0 <= j <= old(driver).services@.len() && final(driver).services@ == old(
                        driver,
                    ).services@.insert(j, s)
            },
            !service_name_free(old(driver).services@, name@) ==> r is Err,
            r is Err ==> final(driver).services == old(driver).services && r == Err::<
                Service,
                CoreError,
            >(CoreError::Conflict),
    {
        let id = uuid_generate();
        let now = time_now_ms();
        match driver.service_create(id, now, is_enabled, name, url) {
            Ok(s) => Ok(s),
            Err(_) => Err(CoreError::Conflict),
        }
    }

    /// Read a service by identifier. A masked caller sees only the
    /// masked tenant itself.
    pub fn read_by_id(
        driver: &Driver,
        service_mask: Option<&Service>,
        _audit: &mut AuditBuilder,
        id: u128,
    ) -> (r: Result<Option<Service>, CoreError>)
        requires
            driver.wf(),
        ensures
            r is Ok,
            r matches Ok(o) ==> {
                &&& (o is Some <==> id_visible(
                    id,
                    match service_mask {
                        Some(m) => Some(m.id),
                        None => None::<u128>,
                    },
                ) && service_present(driver.services@, id))
                &&& (o matches Some(s) ==> s.id == id && driver.services@.contains(s))
            },
    {
        let mask = match service_mask {
            Some(m) => Some(m.id),
            None => None,
        };
        Ok(driver.service_read_by_id(id, mask))
    }

    /// Partially update a service under the mask; `None` leaves a
    /// field unchanged. An absent or hidden row is `NotFound`; a new
    /// name already in use is `Conflict`.
    pub fn update_by_id(
        driver: &mut Driver,
        service_mask: Option<&Service>,
        _audit: &mut AuditBuilder,
        id: u128,
        is_enabled: Option<bool>,
        name: Option<&str>,
    ) -> (r: Result<Service, CoreError>)
        requires
            old(driver).wf(),
        ensures
            final(driver).wf(),
            final(driver).keys == old(driver).keys,
            final(driver).users == old(driver).users,
            final(driver).audits == old(driver).audits,
            final(driver).csrfs == old(driver).csrfs,
            r is Ok <==> {
                &&& id_visible(
                    id,
                    match service_mask {
                        Some(m) => Some(m.id),
                        None => None::<u128>,
                    },
                )
                &&& service_present(old(driver).services@, id)
                &&& (match name {
                    Some(n) => service_name_free_except(old(driver).services@, n@, id),
                    None => true,
                })
            },
            r matches Ok(v) ==> service_row_updated(
                old(driver).services@,
                final(driver).services@,
                id,
                v,
                v.updated_at,
                is_enabled,
                name,
            ),
            r is Err ==> final(driver).services == old(driver).services,
            r matches Err(e) ==> e == (if !(id_visible(
                id,
                match service_mask {
                    Some(m) => Some(m.id),
                    None => None::<u128>,
                },
            ) && service_present(old(driver).services@, id)) {
                CoreError::NotFound
            } else {
                CoreError::Conflict
            }),
    {
        let now = time_now_ms();
        let mask = match service_mask {
            Some(m) => Some(m.id),
            None => None,
        };
        match driver.service_update_by_id(now, id, mask, is_enabled, name) {
            Ok(v) => {
                proof {
                    let t = final(driver).services@;
                    let s = old(driver).services@;
                    let w = choose|i: int|
                        0 <= i < s.len() && s[i].id == id && crate::driver::service_updated(
                            s[i],
                            v,
                            now,
                            is_enabled,
                            name,
                        ) && t == s.update(i, v);
                    assert(crate::driver::service_updated(
                        s[w],
                        v,
                        v.updated_at,
                        is_enabled,
                        name,
                    ));
                }
                Ok(v)
            },
            Err(DriverError::NotFound) => Err(CoreError::NotFound),
            Err(DriverError::Conflict) => Err(CoreError::Conflict),
        }
    }

    /// Delete a service under the mask; the count of deleted rows is
    /// returned.
    pub fn delete_by_id(
        driver: &mut Driver,
        service_mask: Option<&Service>,
        _audit: &mut AuditBuilder,
        id: u128,
    ) -> (r: Result<usize, CoreError>)
        requires
            old(driver).wf(),
        ensures
            final(driver).wf(),
            final(driver).keys == old(driver).keys,
            final(driver).users == old(driver).users,
            final(driver).audits == old(driver).audits,
            final(driver).csrfs == old(driver).csrfs,
            r is Ok,
            r matches Ok(count) ==> (count == 1 <==> id_visible(
                id,
                match service_mask {
                    Some(m) => Some(m.id),
                    None => None::<u128>,
                },
            ) && service_present(old(driver).services@, id)),
            r matches Ok(count) ==> (count == 0 ==> final(driver).services == old(
                driver,
            ).services),
            r matches Ok(count) ==> (count == 1 ==> exists|i: int|
                0 <= i < old(driver).services@.len() && old(driver).services@[i].id == id
                    && final(driver).services@ == old(driver).services@.remove(i)),
    {
        let mask = match service_mask {
            Some(m) => Some(m.id),
            None => None,
        };
        Ok(driver.service_delete_by_id(id, mask))
    }
}

} // verus!
