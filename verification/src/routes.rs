use vstd::prelude::*;

use crate::audit::AuditMessage;
use crate::audit::AuditPath;
use crate::audit::internal_audit_written;
use crate::driver::Driver;
use crate::driver::has_root_value;
use crate::driver::id_visible;
use crate::driver::service_name_free;
use crate::driver::service_name_free_except;
use crate::driver::service_present;
use crate::entity::AuditMeta;
use crate::entity::Key;
use crate::entity::Service;
use crate::error::CoreError;
use crate::key::auth_mask;
use crate::key::bare_builder;
use crate::key::service_auth_ok;
use crate::metrics::Metrics;
use crate::service::ServiceQuery;
use crate::service::service_list_spec;

verus! {

/// Body of a service-creation request.
pub struct ServiceCreateBody {
    pub is_enabled: bool,
    pub name: String,
    pub url: String,
}

/// Body of a service-update request; `None` leaves a field unchanged.
pub struct ServiceUpdateBody {
    pub is_enabled: Option<bool>,
    pub name: Option<String>,
}

/// Answer of the service-list route: the resolved cursor and the page.
pub struct ServiceListResponse {
    pub meta: ServiceQuery,
    pub data: Vec<u128>,
}

/// Answer of the service read, create and update routes.
pub struct ServiceReadResponse {
    pub data: Service,
}

/// Page query of the key-list route.
pub struct ListQuery {
    pub offset: Option<i64>,
    pub limit: Option<i64>,
    pub order: Option<String>,
}

/// Answer of the key-list route.
pub struct ListResponse {
    pub data: Vec<Key>,
}

/// Body of a key-creation request.
pub struct CreateBody {
    pub name: String,
    pub user_id: u128,
}

/// Body of a key-update request; `None` leaves the field unchanged.
pub struct UpdateBody {
    pub name: Option<String>,
}

/// The unauthenticated liveness answer.
pub fn ping() -> (r: String)
    ensures
        r@ == "pong"@,
{
    String::from_str("pong")
}

/// Assemble per-request audit metadata from the transport's values.
/// A request without a remote address or a user agent is refused with
/// `BadRequest`.
pub fn request_audit_meta(
    user_agent: Option<String>,
    remote: Option<String>,
    forwarded: Option<String>,
) -> (r: Result<AuditMeta, CoreError>)
    ensures
        r is Ok <==> user_agent is Some && remote is Some,
        r matches Ok(m) ==> Some(m.user_agent) == user_agent && Some(m.remote) == remote
            && m.forwarded == forwarded,
        r is Err ==> r == Err::<AuditMeta, CoreError>(CoreError::BadRequest),
{
    match (user_agent, remote) {
        (Some(ua), Some(re)) => Ok(AuditMeta::new(ua, re, forwarded)),
        _ => Err(CoreError::BadRequest),
    }
}

/// The credential authenticates at service or root tier.
pub open spec fn authenticated(d: Driver, key_value: Option<String>) -> bool {
    match key_value {
        Some(v) => service_auth_ok(d, v@) || has_root_value(d.keys@, v@),
        None => false,
    }
}

/// The service mask the credential carries once authenticated.
pub open spec fn mask_of(d: Driver, key_value: Option<String>) -> Option<u128> {
    match key_value {
        Some(v) => auth_mask(d, v@),
        None => None,
    }
}

/// The service table `t` is `s` with row `id` replaced by `v`, the
/// body's partial update applied.
pub open spec fn service_updated_row(
    s: Seq<Service>,
    t: Seq<Service>,
    id: u128,
    v: Service,
    is_enabled: Option<bool>,
    name: Option<String>,
) -> bool {
    exists|i: int|
        {
            &&& 0 <= i < s.len()
            &&& s[i].id == id
            &&& t == s.update(i, v)
            &&& v.id == id
            &&& v.url == s[i].url
            &&& v.created_at == s[i].created_at
            &&& v.is_enabled == (match is_enabled {
                Some(b) => b,
                None => s[i].is_enabled,
            })
            &&& (match name {
                Some(n) => v.name@ == n@,
                None => v.name == s[i].name,
            })
        }
}

/// The failure message a rejected credential is audited under.
pub open spec fn reject_message(key_value: Option<String>) -> AuditMessage {
    if key_value is None {
        AuditMessage::KeyUndefined
    } else {
        AuditMessage::KeyNotFound
    }
}

/// The metrics route: any authenticated caller; a masked caller sees
/// only their tenant's audit counters.
pub fn metrics_inner(
    driver: &mut Driver,
    registry: &prometheus::Registry,
    process_text: &str,
    audit_meta: AuditMeta,
    key_value: Option<String>,
) -> (r: Result<String, CoreError>)
    requires
        old(driver).wf(),
    ensures
        final(driver).wf(),
        final(driver).keys == old(driver).keys,
        final(driver).services == old(driver).services,
        final(driver).users == old(driver).users,
        final(driver).csrfs == old(driver).csrfs,
        !authenticated(*old(driver), key_value) ==> r == Err::<String, CoreError>(
            CoreError::Forbidden,
        ) && internal_audit_written(
            old(driver).audits@,
            final(driver).audits@,
            bare_builder(audit_meta),
            AuditPath::AuthenticateError,
            reject_message(key_value),
        ),
        authenticated(*old(driver), key_value) ==> final(driver).audits == old(driver).audits,
        r matches Ok(t) ==> exists|e1: Seq<char>, e2: Seq<char>|
            t@ == process_text@ + "\n"@ + e1 + "\n"@ + e2,
        (authenticated(*old(driver), key_value) && r is Err) ==> r == Err::<String, CoreError>(
            CoreError::Metrics,
        ),
{
    match Key::authenticate(driver, audit_meta, key_value) {
        Ok((service, mut audit)) => {
            match &service {
                Some(s) => Metrics::read(driver, Some(s), &mut audit, registry, process_text),
                None => Metrics::read(driver, None, &mut audit, registry, process_text),
            }
        },
        Err(e) => Err(e),
    }
}

/// The service-list route: root only.
pub fn list_inner(
    driver: &mut Driver,
    audit_meta: AuditMeta,
    key_value: Option<String>,
    query: ServiceQuery,
) -> (r: Result<ServiceListResponse, CoreError>)
    requires
        old(driver).wf(),
    ensures
        final(driver).wf(),
        final(driver).keys == old(driver).keys,
        final(driver).services == old(driver).services,
        final(driver).users == old(driver).users,
        final(driver).csrfs == old(driver).csrfs,
        r is Ok <==> (key_value matches Some(v) && has_root_value(old(driver).keys@, v@)),
        r matches Ok(resp) ==> final(driver).audits == old(driver).audits && resp.meta == query
            && resp.data@ == service_list_spec(old(driver).services@, query),
        r is Err ==> r == Err::<ServiceListResponse, CoreError>(CoreError::Forbidden)
            && internal_audit_written(
            old(driver).audits@,
            final(driver).audits@,
            bare_builder(audit_meta),
            AuditPath::AuthenticateError,
            reject_message(key_value),
        ),
{
    match Key::authenticate_root(driver, audit_meta, key_value) {
        Ok(mut audit) => {
            let data = match Service::list(driver, &mut audit, &query) {
                Ok(ids) => ids,
                Err(e) => {
                    return Err(e);
                },
            };
            Ok(ServiceListResponse { meta: query, data })
        },
        Err(e) => Err(e),
    }
}

/// The service-creation route: root only.
pub fn create_inner(
    driver: &mut Driver,
    audit_meta: AuditMeta,
    key_value: Option<String>,
    body: &ServiceCreateBody,
) -> (r: Result<ServiceReadResponse, CoreError>)
    requires
        old(driver).wf(),
    ensures
        final(driver).wf(),
        final(driver).keys == old(driver).keys,
        final(driver).users == old(driver).users,
        final(driver).csrfs == old(driver).csrfs,
        !(key_value matches Some(v) && has_root_value(old(driver).keys@, v@)) ==> r == Err::<
            ServiceReadResponse,
            CoreError,
        >(CoreError::Forbidden) && internal_audit_written(
            old(driver).audits@,
            final(driver).audits@,
            bare_builder(audit_meta),
            AuditPath::AuthenticateError,
            reject_message(key_value),
        ) && final(driver).services == old(driver).services,
        (key_value matches Some(v) && has_root_value(old(driver).keys@, v@))
            ==> final(driver).audits == old(driver).audits,
        r matches Ok(resp) ==> {
            &&& service_name_free(old(driver).services@, body.name@)
            &&& resp.data.is_enabled == body.is_enabled
            &&& resp.data.name@ == body.name@
            &&& resp.data.url@ == body.url@
            &&& exists|j: int|
                0 <= j <= old(driver).services@.len() && final(driver).services@ == old(
                    driver,
                ).services@.insert(j, resp.data)
        },
        ((key_value matches Some(v) && has_root_value(old(driver).keys@, v@))
            && !service_name_free(old(driver).services@, body.name@)) ==> r == Err::<
            ServiceReadResponse,
            CoreError,
        >(CoreError::Conflict),
        r is Err ==> final(driver).services == old(driver).services,
{
    match Key::authenticate_root(driver, audit_meta, key_value) {
        Ok(mut audit) => {
            let ghost mid = *driver;
            match Service::create(
                driver,
                &mut audit,
                body.is_enabled,
                body.name.as_str(),
                body.url.as_str(),
            ) {
                Ok(service) => {
                    proof {
                        assert(mid.services@ == old(driver).services@);
                        let j = choose|j: int|
                            0 <= j <= mid.services@.len() && driver.services@
                                == mid.services@.insert(j, service);
                        assert(0 <= j <= old(driver).services@.len() && driver.services@
                            == old(driver).services@.insert(j, service));
                    }
                    Ok(ServiceReadResponse { data: service })
                },
                Err(e) => Err(e),
            }
        },
        Err(e) => Err(e),
    }
}

/// The service-read route: any authenticated caller, under their
/// mask. An absent or hidden service is `NotFound`.
pub fn read_inner(
    driver: &mut Driver,
    audit_meta: AuditMeta,
    key_value: Option<String>,
    service_id: u128,
) -> (r: Result<ServiceReadResponse, CoreError>)
    requires
        old(driver).wf(),
    ensures
        final(driver).wf(),
        final(driver).keys == old(driver).keys,
        final(driver).services == old(driver).services,
        final(driver).users == old(driver).users,
        final(driver).csrfs == old(driver).csrfs,
        !authenticated(*old(driver), key_value) ==> r == Err::<ServiceReadResponse, CoreError>(
            CoreError::Forbidden,
        ) && internal_audit_written(
            old(driver).audits@,
            final(driver).audits@,
            bare_builder(audit_meta),
            AuditPath::AuthenticateError,
            reject_message(key_value),
        ),
        authenticated(*old(driver), key_value) ==> final(driver).audits == old(driver).audits
            && (r is Ok <==> id_visible(service_id, mask_of(*old(driver), key_value))
            && service_present(old(driver).services@, service_id)),
        r matches Ok(resp) ==> resp.data.id == service_id && old(driver).services@.contains(
            resp.data,
        ),
        (authenticated(*old(driver), key_value) && r is Err) ==> r == Err::<
            ServiceReadResponse,
            CoreError,
        >(CoreError::NotFound),
{
    match Key::authenticate(driver, audit_meta, key_value) {
        Ok((service, mut audit)) => {
            let found = match &service {
                Some(s) => Service::read_by_id(driver, Some(s), &mut audit, service_id),
                None => Service::read_by_id(driver, None, &mut audit, service_id),
            };
            match found {
                Ok(Some(s)) => Ok(ServiceReadResponse { data: s }),
                Ok(None) => Err(CoreError::NotFound),
                Err(e) => Err(e),
            }
        },
        Err(e) => Err(e),
    }
}

/// The service-update route: any authenticated caller, under their
/// mask. `None` body fields leave the service unchanged.
pub fn update_inner(
    driver: &mut Driver,
    audit_meta: AuditMeta,
    key_value: Option<String>,
    service_id: u128,
    body: &ServiceUpdateBody,
) -> (r: Result<ServiceReadResponse, CoreError>)
    requires
        old(driver).wf(),
    ensures
        final(driver).wf(),
        final(driver).keys == old(driver).keys,
        final(driver).users == old(driver).users,
        final(driver).csrfs == old(driver).csrfs,
        !authenticated(*old(driver), key_value) ==> r == Err::<ServiceReadResponse, CoreError>(
            CoreError::Forbidden,
        ) && internal_audit_written(
            old(driver).audits@,
            final(driver).audits@,
            bare_builder(audit_meta),
            AuditPath::AuthenticateError,
            reject_message(key_value),
        ) && final(driver).services == old(driver).services,
        authenticated(*old(driver), key_value) ==> final(driver).audits == old(driver).audits
            && (r is Ok <==> id_visible(service_id, mask_of(*old(driver), key_value))
            && service_present(old(driver).services@, service_id) && (match body.name {
            Some(n) => service_name_free_except(old(driver).services@, n@, service_id),
            None => true,
        })),
        r matches Ok(resp) ==> service_updated_row(
            old(driver).services@,
            final(driver).services@,
            service_id,
            resp.data,
            body.is_enabled,
            body.name,
        ),
        r is Err ==> final(driver).services == old(driver).services,
        (authenticated(*old(driver), key_value) && r is Err) ==> (r == Err::<
            ServiceReadResponse,
            CoreError,
        >(CoreError::NotFound) || r == Err::<ServiceReadResponse, CoreError>(
            CoreError::Conflict,
        )),
{
    match Key::authenticate(driver, audit_meta, key_value) {
        Ok((service, mut audit)) => {
            let name_ref: Option<&str> = match &body.name {
                Some(n) => Some(n.as_str()),
                None => None,
            };
            let ghost mid = *driver;
            let updated = match &service {
                Some(s) => Service::update_by_id(
                    driver,
                    Some(s),
                    &mut audit,
                    service_id,
                    body.is_enabled,
                    name_ref,
                ),
                None => Service::update_by_id(
                    driver,
                    None,
                    &mut audit,
                    service_id,
                    body.is_enabled,
                    name_ref,
                ),
            };
            match updated {
                Ok(s) => {
                    proof {
                        assert(crate::driver::service_row_updated(
                            mid.services@,
                            driver.services@,
                            service_id,
                            s,
                            s.updated_at,
                            body.is_enabled,
                            name_ref,
                        ));
                        assert(mid.services@ == old(driver).services@);
                        let i = choose|i: int|
                            0 <= i < mid.services@.len() && mid.services@[i].id == service_id
                                && crate::driver::service_updated(
                                mid.services@[i],
                                s,
                                s.updated_at,
                                body.is_enabled,
                                name_ref,
                            ) && driver.services@ == mid.services@.update(i, s);
                        assert(driver.services@ == old(driver).services@.update(i, s));
                        assert(s.id == old(driver).services@[i].id);
                        if body.name is Some {
                            assert(name_ref matches Some(ns) && ns@ == body.name->0@);
                            assert(s.name@ == body.name->0@);
                        } else {
                            assert(name_ref is None);
                            assert(s.name == old(driver).services@[i].name);
                        }
                        assert(s.is_enabled == (match body.is_enabled {
                            Some(b) => b,
                            None => old(driver).services@[i].is_enabled,
                        }));
                        assert(s.url == old(driver).services@[i].url && s.created_at == old(
                            driver,
                        ).services@[i].created_at);
                        assert(service_updated_row(
                            old(driver).services@,
                            driver.services@,
                            service_id,
                            s,
                            body.is_enabled,
                            body.name,
                        ));
                    }
                    Ok(ServiceReadResponse { data: s })
                },
                Err(e) => Err(e),
            }
        },
        Err(e) => Err(e),
    }
}

/// The service-deletion route: any authenticated caller, under their
/// mask; the count of deleted rows is returned.
pub fn delete_inner(
    driver: &mut Driver,
    audit_meta: AuditMeta,
    key_value: Option<String>,
    service_id: u128,
) -> (r: Result<usize, CoreError>)
    requires
        old(driver).wf(),
    ensures
        final(driver).wf(),
        final(driver).keys == old(driver).keys,
        final(driver).users == old(driver).users,
        final(driver).csrfs == old(driver).csrfs,
        !authenticated(*old(driver), key_value) ==> r == Err::<usize, CoreError>(
            CoreError::Forbidden,
        ) && internal_audit_written(
            old(driver).audits@,
            final(driver).audits@,
            bare_builder(audit_meta),
            AuditPath::AuthenticateError,
            reject_message(key_value),
        ) && final(driver).services == old(driver).services,
        authenticated(*old(driver), key_value) ==> final(driver).audits == old(driver).audits
            && r is Ok,
        r matches Ok(count) ==> (count == 1 <==> id_visible(
            service_id,
            mask_of(*old(driver), key_value),
        ) && service_present(old(driver).services@, service_id)),
        r matches Ok(count) ==> (count == 0 ==> final(driver).services == old(driver).services),
{
    match Key::authenticate(driver, audit_meta, key_value) {
        Ok((service, mut audit)) => {
            match &service {
                Some(s) => Service::delete_by_id(driver, Some(s), &mut audit, service_id),
                None => Service::delete_by_id(driver, None, &mut audit, service_id),
            }
        },
        Err(e) => Err(e),
    }
}

} // verus!
