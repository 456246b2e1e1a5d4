use vstd::prelude::*;

use crate::audit::AuditBuilder;
use crate::audit::AuditMessage;
use crate::audit::AuditPath;
use crate::audit::internal_audit_written;
use crate::driver::Driver;
use crate::driver::clamp_limit;
use crate::driver::has_root_value;
use crate::driver::has_service_value;
use crate::driver::key_ids_gt;
use crate::driver::key_ids_lt;
use crate::driver::key_in_mask;
use crate::driver::key_present;
use crate::driver::root_value_match;
use crate::driver::service_present;
use crate::driver::service_value_match;
use crate::driver::take_at_most;
use crate::entity::AuditMeta;
use crate::entity::Key;
use crate::entity::Service;
use crate::entity::User;
use crate::entity::is_root_key;
use crate::error::CoreError;
use crate::error::DriverError;
use crate::trusted::is_lower_hex_digit;
use crate::trusted::random_hex;
use crate::trusted::time_now_ms;
use crate::trusted::uuid_generate;

verus! {

/// Key value size in bytes.
pub const KEY_VALUE_BYTES: usize = 21;

/// Cursor query over the key table: page after `gt` or before `lt`;
/// with neither, start from the zero identifier ascending.
pub struct KeyQuery {
    pub gt: Option<u128>,
    pub lt: Option<u128>,
    pub limit: Option<i64>,
}

/// The builder that authentication hands back when no credential was
/// resolved: request metadata only, no principal attached.
pub open spec fn bare_builder(meta: AuditMeta) -> AuditBuilder {
    AuditBuilder { meta, key_id: None, service_id: None, user_id: None, user_key_id: None }
}

/// A builder carrying the resolved key alone.
pub open spec fn keyed_builder(meta: AuditMeta, key_id: u128) -> AuditBuilder {
    AuditBuilder {
        meta,
        key_id: Some(key_id),
        service_id: None,
        user_id: None,
        user_key_id: None,
    }
}

/// The value resolves to a live service key whose tenant still exists:
/// what service-tier authentication accepts.
pub open spec fn service_auth_ok(d: Driver, v: Seq<char>) -> bool {
    exists|i: int|
        0 <= i < d.keys@.len() && service_value_match(d.keys@[i], v) && service_present(
            d.services@,
            d.keys@[i].service_id->0,
        )
}

/// The tenant a value authenticates as: the service key's tenant for
/// a service-tier match, none otherwise. Key values never repeat, so
/// the tenant is determined.
pub open spec fn auth_mask(d: Driver, v: Seq<char>) -> Option<u128> {
    if service_auth_ok(d, v) {
        Some(
            d.keys@[choose|i: int|
                0 <= i < d.keys@.len() && service_value_match(d.keys@[i], v)
                    && service_present(d.services@, d.keys@[i].service_id->0)].service_id->0,
        )
    } else {
        None
    }
}

/// The operator-facing rendering of a key: one line per field,
/// identifiers in decimal, optional bindings only when present.
pub open spec fn key_display_str(k: Key) -> Seq<char> {
    "Key "@ + crate::util::dec_str(k.id) + "\n\tcreated_at "@ + crate::util::i64_str(
        k.created_at,
    ) + "\n\tupdated_at "@ + crate::util::i64_str(k.updated_at) + "\n\tis_enabled "@
        + crate::util::bool_str(k.is_enabled) + "\n\tis_revoked "@ + crate::util::bool_str(
        k.is_revoked,
    ) + "\n\tname "@ + k.name@ + "\n\tvalue "@ + k.value@ + (match k.service_id {
        Some(sid) => "\n\tservice_id "@ + crate::util::dec_str(sid),
        None => Seq::<char>::empty(),
    }) + (match k.user_id {
        Some(uid) => "\n\tuser_id "@ + crate::util::dec_str(uid),
        None => Seq::<char>::empty(),
    })
}

/// What the key table answers a cursor query with.
pub open spec fn key_list_spec(keys: Seq<Key>, q: KeyQuery, mask: Option<u128>) -> Seq<u128> {
    let limit = match q.limit {
        Some(l) => l,
        None => crate::DEFAULT_LIST_LIMIT,
    };
    match q.gt {
        Some(gt) => take_at_most(key_ids_gt(keys, gt, mask), clamp_limit(limit)),
        None => match q.lt {
            Some(lt) => take_at_most(key_ids_lt(keys, lt, mask), clamp_limit(limit)),
            None => take_at_most(key_ids_gt(keys, 0, mask), clamp_limit(limit)),
        },
    }
}

impl Key {
    /// Authenticate a bearer value at root privilege, or fail with
    /// `Forbidden` after writing exactly one audit event: an absent
    /// value reports `KeyUndefined`; anything that does not resolve to
    /// a live root key — including a revoked or disabled one — reports
    /// `KeyNotFound`.
    pub fn authenticate_root(
        driver: &mut Driver,
        audit_meta: AuditMeta,
        key_value: Option<String>,
    ) -> (r: Result<AuditBuilder, CoreError>)
        requires
            old(driver).wf(),
        ensures
            final(driver).wf(),
            final(driver).keys == old(driver).keys,
            final(driver).services == old(driver).services,
            final(driver).users == old(driver).users,
            final(driver).csrfs == old(driver).csrfs,
            r is Ok <==> (key_value matches Some(v) && has_root_value(old(driver).keys@, v@)),
            r matches Ok(b) ==> final(driver).audits == old(driver).audits && (
            key_value matches Some(v) && exists|i: int|
                0 <= i < old(driver).keys@.len() && root_value_match(old(driver).keys@[i], v@)
                    && b == keyed_builder(audit_meta, old(driver).keys@[i].id)),
            r is Err ==> r == Err::<AuditBuilder, CoreError>(CoreError::Forbidden),
            r is Err ==> internal_audit_written(
                old(driver).audits@,
                final(driver).audits@,
                bare_builder(audit_meta),
                AuditPath::AuthenticateError,
                if key_value is None {
                    AuditMessage::KeyUndefined
                } else {
                    AuditMessage::KeyNotFound
                },
            ),
    {
        let mut audit = AuditBuilder::new(audit_meta);
        match key_value {
            Some(v) => {
                match driver.key_read_by_root_value(v.as_str()) {
                    Some(k) => {
                        audit.set_key(Some(&k));
                        proof {
                            let keys = driver.keys@;
                            let w = choose|i: int|
                                0 <= i < keys.len() && keys[i] == k;
                            assert(root_value_match(keys[w], v@));
                        }
                        Ok(audit)
                    },
                    None => {
                        audit.create_internal(
                            driver,
                            AuditPath::AuthenticateError,
                            AuditMessage::KeyNotFound,
                        );
                        Err(CoreError::Forbidden)
                    },
                }
            },
            None => {
                audit.create_internal(
                    driver,
                    AuditPath::AuthenticateError,
                    AuditMessage::KeyUndefined,
                );
                Err(CoreError::Forbidden)
            },
        }
    }

    /// Attach the service row to a builder that has resolved a service
    /// key, or write `ServiceNotFound` and fail.
    fn authenticate_service_inner(
        driver: &mut Driver,
        audit: AuditBuilder,
        service_id: u128,
    ) -> (r: Result<(Service, AuditBuilder), CoreError>)
        requires
            old(driver).wf(),
        ensures
            final(driver).wf(),
            final(driver).keys == old(driver).keys,
            final(driver).services == old(driver).services,
            final(driver).users == old(driver).users,
            final(driver).csrfs == old(driver).csrfs,
            r is Ok <==> service_present(old(driver).services@, service_id),
            r matches Ok((s, b)) ==> final(driver).audits == old(driver).audits && s.id
                == service_id && old(driver).services@.contains(s) && b == (AuditBuilder {
                service_id: Some(service_id),
                ..audit
            }),
            r is Err ==> r == Err::<(Service, AuditBuilder), CoreError>(CoreError::Forbidden)
                && internal_audit_written(
                old(driver).audits@,
                final(driver).audits@,
                audit,
                AuditPath::AuthenticateError,
                AuditMessage::ServiceNotFound,
            ),
    {
        let mut audit = audit;
        match driver.service_read_by_id(service_id, None) {
            Some(service) => {
                audit.set_service(Some(&service));
                Ok((service, audit))
            },
            None => {
                audit.create_internal(
                    driver,
                    AuditPath::AuthenticateError,
                    AuditMessage::ServiceNotFound,
                );
                Err(CoreError::Forbidden)
            },
        }
    }

    /// Authenticate a bearer value at service privilege, or fail with
    /// `Forbidden` after writing exactly one audit event: an absent
    /// value reports `KeyUndefined`; a value that resolves to no live
    /// service key — a root or user key, or a revoked or disabled one
    /// — reports `KeyNotFound`; a resolved key whose tenant row is
    /// gone reports `ServiceNotFound`.
    pub fn authenticate_service(
        driver: &mut Driver,
        audit_meta: AuditMeta,
        key_value: Option<String>,
    ) -> (r: Result<(Service, AuditBuilder), CoreError>)
        requires
            old(driver).wf(),
        ensures
            final(driver).wf(),
            final(driver).keys == old(driver).keys,
            final(driver).services == old(driver).services,
            final(driver).users == old(driver).users,
            final(driver).csrfs == old(driver).csrfs,
            r is Ok <==> (key_value matches Some(v) && service_auth_ok(*old(driver), v@)),
            r matches Ok((s, b)) ==> final(driver).audits == old(driver).audits && (
            key_value matches Some(v) && exists|i: int|
                0 <= i < old(driver).keys@.len() && service_value_match(
                    old(driver).keys@[i],
                    v@,
                ) && old(driver).keys@[i].service_id == Some(s.id) && old(
                    driver,
                ).services@.contains(s) && b == (AuditBuilder {
                    service_id: Some(s.id),
                    ..keyed_builder(audit_meta, old(driver).keys@[i].id)
                })),
            r is Err ==> r == Err::<(Service, AuditBuilder), CoreError>(CoreError::Forbidden),
            (r is Err && key_value is None) ==> internal_audit_written(
                old(driver).audits@,
                final(driver).audits@,
                bare_builder(audit_meta),
                AuditPath::AuthenticateError,
                AuditMessage::KeyUndefined,
            ),
            (r is Err && (key_value matches Some(v) && !has_service_value(
                old(driver).keys@,
                v@,
            ))) ==> internal_audit_written(
                old(driver).audits@,
                final(driver).audits@,
                bare_builder(audit_meta),
                AuditPath::AuthenticateError,
                AuditMessage::KeyNotFound,
            ),
            key_value matches Some(v) ==> ((r is Err && has_service_value(
                old(driver).keys@,
                v@,
            )) ==> exists|i: int|
                0 <= i < old(driver).keys@.len() && service_value_match(
                    old(driver).keys@[i],
                    v@,
                ) && internal_audit_written(
                    old(driver).audits@,
                    final(driver).audits@,
                    keyed_builder(audit_meta, old(driver).keys@[i].id),
                    AuditPath::AuthenticateError,
                    AuditMessage::ServiceNotFound,
                )),
    {
        let mut audit = AuditBuilder::new(audit_meta);
        match key_value {
            Some(v) => {
                match driver.key_read_by_service_value(v.as_str()) {
                    Some(k) => {
                        audit.set_key(Some(&k));
                        match k.service_id {
                            Some(service_id) => {
                                proof {
                                    let keys = driver.keys@;
                                    let w = choose|i: int|
                                        0 <= i < keys.len() && keys[i] == k;
                                    assert(service_value_match(keys[w], v@));
                                }
                                Key::authenticate_service_inner(driver, audit, service_id)
                            },
                            None => {
                                audit.create_internal(
                                    driver,
                                    AuditPath::AuthenticateError,
                                    AuditMessage::KeyInvalid,
                                );
                                Err(CoreError::Forbidden)
                            },
                        }
                    },
                    None => {
                        audit.create_internal(
                            driver,
                            AuditPath::AuthenticateError,
                            AuditMessage::KeyNotFound,
                        );
                        Err(CoreError::Forbidden)
                    },
                }
            },
            None => {
                audit.create_internal(
                    driver,
                    AuditPath::AuthenticateError,
                    AuditMessage::KeyUndefined,
                );
                Err(CoreError::Forbidden)
            },
        }
    }

    /// Service-tier authentication that stays silent on failure: no
    /// audit event is written, so a caller may retry the value at
    /// another tier and audit only the last failing interpretation.
    fn try_authenticate_service(
        driver: &mut Driver,
        audit_meta: AuditMeta,
        key_value: Option<String>,
    ) -> (r: Result<(Service, AuditBuilder), CoreError>)
        requires
            old(driver).wf(),
        ensures
            final(driver).wf(),
            final(driver).keys == old(driver).keys,
            final(driver).services == old(driver).services,
            final(driver).users == old(driver).users,
            final(driver).csrfs == old(driver).csrfs,
            r is Ok <==> (key_value matches Some(v) && service_auth_ok(*old(driver), v@)),
            r matches Ok((s, b)) ==> final(driver).audits == old(driver).audits && (
            key_value matches Some(v) && exists|i: int|
                0 <= i < old(driver).keys@.len() && service_value_match(
                    old(driver).keys@[i],
                    v@,
                ) && old(driver).keys@[i].service_id == Some(s.id) && old(
                    driver,
                ).services@.contains(s) && b == (AuditBuilder {
                    service_id: Some(s.id),
                    ..keyed_builder(audit_meta, old(driver).keys@[i].id)
                }) && auth_mask(*old(driver), v@) == Some(s.id)),
            r is Err ==> r == Err::<(Service, AuditBuilder), CoreError>(CoreError::Forbidden)
                && final(driver).audits == old(driver).audits,
    {
        let mut audit = AuditBuilder::new(audit_meta);
        match key_value {
            Some(v) => {
                match driver.key_read_by_service_value(v.as_str()) {
                    Some(k) => {
                        audit.set_key(Some(&k));
                        match k.service_id {
                            Some(service_id) => {
                                proof {
                                    let keys = driver.keys@;
                                    let w = choose|i: int|
                                        0 <= i < keys.len() && keys[i] == k;
                                    assert(service_value_match(keys[w], v@));
                                }
                                match driver.service_read_by_id(service_id, None) {
                                    Some(service) => {
                                        audit.set_service(Some(&service));
                                        proof {
                                            let d = *old(driver);
                                            let w = choose|i: int|
                                                0 <= i < d.keys@.len() && d.keys@[i] == k;
                                            assert(service_value_match(d.keys@[w], v@)
                                                && service_present(
                                                d.services@,
                                                d.keys@[w].service_id->0,
                                            ));
                                            let cw = choose|i: int|
                                                0 <= i < d.keys@.len() && service_value_match(
                                                    d.keys@[i],
                                                    v@,
                                                ) && service_present(
                                                    d.services@,
                                                    d.keys@[i].service_id->0,
                                                );
                                            if cw != w {
                                                assert(d.keys@[cw].value@ == d.keys@[w].value@);
                                                assert(false);
                                            }
                                        }
                                        Ok((service, audit))
                                    },
                                    None => Err(CoreError::Forbidden),
                                }
                            },
                            None => Err(CoreError::Forbidden),
                        }
                    },
                    None => Err(CoreError::Forbidden),
                }
            },
            None => Err(CoreError::Forbidden),
        }
    }

    /// Authenticate a bearer value at service or root privilege,
    /// preferring the service interpretation. `service = None` in the
    /// result denotes a root caller. A value that fails both tiers is
    /// audited once, from the root interpretation — the last one
    /// tried.
    pub fn authenticate(
        driver: &mut Driver,
        audit_meta: AuditMeta,
        key_value: Option<String>,
    ) -> (r: Result<(Option<Service>, AuditBuilder), CoreError>)
        requires
            old(driver).wf(),
        ensures
            final(driver).wf(),
            final(driver).keys == old(driver).keys,
            final(driver).services == old(driver).services,
            final(driver).users == old(driver).users,
            final(driver).csrfs == old(driver).csrfs,
            r is Ok <==> (key_value matches Some(v) && (service_auth_ok(*old(driver), v@)
                || has_root_value(old(driver).keys@, v@))),
            r matches Ok((os, b)) ==> final(driver).audits == old(driver).audits && (
            key_value matches Some(v) && (os is Some <==> service_auth_ok(*old(driver), v@))
                && (match os {
                Some(s) => auth_mask(*old(driver), v@) == Some(s.id) && old(
                    driver,
                ).services@.contains(s) && (exists|i: int|
                    0 <= i < old(driver).keys@.len() && service_value_match(
                        old(driver).keys@[i],
                        v@,
                    ) && old(driver).keys@[i].service_id == Some(s.id) && b == (AuditBuilder {
                        service_id: Some(s.id),
                        ..keyed_builder(audit_meta, old(driver).keys@[i].id)
                    })),
                None => auth_mask(*old(driver), v@) is None && (exists|i: int|
                    0 <= i < old(driver).keys@.len() && root_value_match(
                        old(driver).keys@[i],
                        v@,
                    ) && b == keyed_builder(audit_meta, old(driver).keys@[i].id)),
            })),
            r is Err ==> r == Err::<(Option<Service>, AuditBuilder), CoreError>(
                CoreError::Forbidden,
            ) && internal_audit_written(
                old(driver).audits@,
                final(driver).audits@,
                bare_builder(audit_meta),
                AuditPath::AuthenticateError,
                if key_value is None {
                    AuditMessage::KeyUndefined
                } else {
                    AuditMessage::KeyNotFound
                },
            ),
    {
        let key_value_retry = match &key_value {
            Some(v) => Some(v.clone()),
            None => None,
        };
        let audit_meta_retry = audit_meta.clone();
        match Key::try_authenticate_service(driver, audit_meta, key_value) {
            Ok((service, audit)) => Ok((Some(service), audit)),
            Err(CoreError::Forbidden) => {
                match Key::authenticate_root(driver, audit_meta_retry, key_value_retry) {
                    Ok(audit) => Ok((None, audit)),
                    Err(e) => Err(e),
                }
            },
            Err(e) => Err(e),
        }
    }

    /// List key identifiers by cursor under the mask. A masked caller
    /// never receives a root key.
    pub fn list(
        driver: &Driver,
        service_mask: Option<&Service>,
        _audit: &mut AuditBuilder,
        query: &KeyQuery,
    ) -> (r: Result<Vec<u128>, CoreError>)
        requires
            driver.wf(),
        ensures
            r is Ok,
            r matches Ok(ids) ==> ids@ == key_list_spec(
                driver.keys@,
                *query,
                match service_mask {
                    Some(s) => Some(s.id),
                    None => None::<u128>,
                },
            ),
    {
        let limit = match query.limit {
            Some(l) => l,
            None => crate::DEFAULT_LIST_LIMIT,
        };
        let mask = match service_mask {
            Some(s) => Some(s.id),
            None => None,
        };
        match query.gt {
            Some(gt) => Ok(driver.key_list_where_id_gt(gt, limit, mask)),
            None => match query.lt {
                Some(lt) => Ok(driver.key_list_where_id_lt(lt, limit, mask)),
                None => Ok(driver.key_list_where_id_gt(0, limit, mask)),
            },
        }
    }

    /// Create a root key with a fresh random value.
    pub fn create_root(
        driver: &mut Driver,
        _audit: &mut AuditBuilder,
        is_enabled: bool,
        name: &str,
    ) -> (r: Result<Key, CoreError>)
        requires
            old(driver).wf(),
        ensures
            final(driver).wf(),
            final(driver).services == old(driver).services,
            final(driver).users == old(driver).users,
            final(driver).audits == old(driver).audits,
            final(driver).csrfs == old(driver).csrfs,
            r matches Ok(k) ==> {
                &&& is_root_key(k)
                &&& k.is_enabled == is_enabled
                &&& !k.is_revoked
                &&& k.name@ == name@
                &&& k.value@.len() == 2 * KEY_VALUE_BYTES
                &&& forall|i: int|
                    0 <= i < k.value@.len() ==> is_lower_hex_digit(#[trigger] k.value@[i])
                &&& exists|j: int|
                    0 <= j <= old(driver).keys@.len() && final(driver).keys@ == old(
                        driver,
                    ).keys@.insert(j, k)
            },
            r is Err ==> final(driver).keys == old(driver).keys && r == Err::<Key, CoreError>(
                CoreError::Driver(DriverError::Conflict),
            ),
    {
        let value = Key::value_generate();
        let id = uuid_generate();
        let now = time_now_ms();
        match driver.key_create(id, now, is_enabled, false, name, value.as_str(), None, None) {
            Ok(k) => Ok(k),
            Err(e) => Err(CoreError::Driver(e)),
        }
    }

    /// Create a service key with a fresh random value.
    pub fn create_service(
        driver: &mut Driver,
        _audit: &mut AuditBuilder,
        is_enabled: bool,
        name: &str,
        service_id: u128,
    ) -> (r: Result<Key, CoreError>)
        requires
            old(driver).wf(),
        ensures
            final(driver).wf(),
            final(driver).services == old(driver).services,
            final(driver).users == old(driver).users,
            final(driver).audits == old(driver).audits,
            final(driver).csrfs == old(driver).csrfs,
            r matches Ok(k) ==> {
                &&& k.service_id == Some(service_id)
                &&& k.user_id is None
                &&& k.is_enabled == is_enabled
                &&& !k.is_revoked
                &&& k.name@ == name@
                &&& k.value@.len() == 2 * KEY_VALUE_BYTES
                &&& forall|i: int|
                    0 <= i < k.value@.len() ==> is_lower_hex_digit(#[trigger] k.value@[i])
                &&& exists|j: int|
                    0 <= j <= old(driver).keys@.len() && final(driver).keys@ == old(
                        driver,
                    ).keys@.insert(j, k)
            },
            r is Err ==> final(driver).keys == old(driver).keys && r == Err::<Key, CoreError>(
                CoreError::Driver(DriverError::Conflict),
            ),
    {
        let value = Key::value_generate();
        let id = uuid_generate();
        let now = time_now_ms();
        match driver.key_create(
            id,
            now,
            is_enabled,
            false,
            name,
            value.as_str(),
            Some(service_id),
            None,
        ) {
            Ok(k) => Ok(k),
            Err(e) => Err(CoreError::Driver(e)),
        }
    }

    /// Create a user key with a fresh random value.
    pub fn create_user(
        driver: &mut Driver,
        _audit: &mut AuditBuilder,
        is_enabled: bool,
        name: &str,
        service_id: u128,
        user_id: u128,
    ) -> (r: Result<Key, CoreError>)
        requires
            old(driver).wf(),
        ensures
            final(driver).wf(),
            final(driver).services == old(driver).services,
            final(driver).users == old(driver).users,
            final(driver).audits == old(driver).audits,
            final(driver).csrfs == old(driver).csrfs,
            r matches Ok(k) ==> {
                &&& k.service_id == Some(service_id)
                &&& k.user_id == Some(user_id)
                &&& k.is_enabled == is_enabled
                &&& !k.is_revoked
                &&& k.name@ == name@
                &&& k.value@.len() == 2 * KEY_VALUE_BYTES
                &&& forall|i: int|
                    0 <= i < k.value@.len() ==> is_lower_hex_digit(#[trigger] k.value@[i])
                &&& exists|j: int|
                    0 <= j <= old(driver).keys@.len() && final(driver).keys@ == old(
                        driver,
                    ).keys@.insert(j, k)
            },
            r is Err ==> final(driver).keys == old(driver).keys && r == Err::<Key, CoreError>(
                CoreError::Driver(DriverError::Conflict),
            ),
    {
        let value = Key::value_generate();
        let id = uuid_generate();
        let now = time_now_ms();
        match driver.key_create(
            id,
            now,
            is_enabled,
            false,
            name,
            value.as_str(),
            Some(service_id),
            Some(user_id),
        ) {
            Ok(k) => Ok(k),
            Err(e) => Err(CoreError::Driver(e)),
        }
    }

    /// Read a key by identifier. A masked caller sees only keys bound
    /// to the masked tenant, so never a root key.
    pub fn read_by_id(
        driver: &Driver,
        service_mask: Option<&Service>,
        _audit: &mut AuditBuilder,
        id: u128,
    ) -> (r: Result<Option<Key>, CoreError>)
        requires
            driver.wf(),
        ensures
            r is Ok,
            r matches Ok(o) ==> {
                &&& (o is Some <==> exists|i: int|
                    0 <= i < driver.keys@.len() && driver.keys@[i].id == id && key_in_mask(
                        driver.keys@[i],
                        match service_mask {
                            Some(s) => Some(s.id),
                            None => None::<u128>,
                        },
                    ))
                &&& (o matches Some(k) ==> k.id == id && driver.keys@.contains(k))
            },
    {
        match driver.key_read_by_id(id) {
            Some(k) => {
                let visible = match service_mask {
                    Some(s) => match k.service_id {
                        Some(sid) => sid == s.id,
                        None => false,
                    },
                    None => true,
                };
                proof {
                    let w = choose|i: int|
                        0 <= i < driver.keys@.len() && driver.keys@[i] == k;
                    assert forall|i: int|
                        0 <= i < driver.keys@.len() && driver.keys@[i].id == id implies i
                        == w by {
                        if i < w {
                            assert(driver.keys@[i].id < driver.keys@[w].id);
                        } else if i > w {
                            assert(driver.keys@[w].id < driver.keys@[i].id);
                        }
                    }
                }
                if visible {
                    Ok(Some(k))
                } else {
                    Ok(None)
                }
            },
            None => Ok(None),
        }
    }

    /// Read the key bound to one user of one service.
    pub fn read_by_user(
        driver: &Driver,
        service: &Service,
        _audit: &mut AuditBuilder,
        user: &User,
    ) -> (r: Result<Option<Key>, CoreError>)
        requires
            driver.wf(),
        ensures
            r is Ok,
            r matches Ok(o) ==> {
                &&& (o is Some <==> exists|i: int|
                    0 <= i < driver.keys@.len() && driver.keys@[i].service_id == Some(service.id)
                        && driver.keys@[i].user_id == Some(user.id))
                &&& (o matches Some(k) ==> k.service_id == Some(service.id) && k.user_id == Some(
                    user.id,
                ) && driver.keys@.contains(k))
            },
    {
        Ok(driver.key_read_by_user_id(service.id, user.id))
    }

    /// Resolve a bearer value at root privilege.
    pub fn read_by_root_value(driver: &Driver, _audit: &mut AuditBuilder, value: &str) -> (r:
        Result<Option<Key>, CoreError>)
        requires
            driver.wf(),
        ensures
            r is Ok,
            r matches Ok(o) ==> {
                &&& (o is Some <==> has_root_value(driver.keys@, value@))
                &&& (o matches Some(k) ==> root_value_match(k, value@) && driver.keys@.contains(
                    k,
                ))
            },
    {
        Ok(driver.key_read_by_root_value(value))
    }

    /// Resolve a bearer value at service privilege.
    pub fn read_by_service_value(driver: &Driver, _audit: &mut AuditBuilder, value: &str) -> (r:
        Result<Option<Key>, CoreError>)
        requires
            driver.wf(),
        ensures
            r is Ok,
            r matches Ok(o) ==> {
                &&& (o is Some <==> has_service_value(driver.keys@, value@))
                &&& (o matches Some(k) ==> service_value_match(k, value@)
                    && driver.keys@.contains(k))
            },
    {
        Ok(driver.key_read_by_service_value(value))
    }

    /// Resolve a bearer value at user privilege within one service.
    pub fn read_by_user_value(
        driver: &Driver,
        service: &Service,
        _audit: &mut AuditBuilder,
        value: &str,
    ) -> (r: Result<Option<Key>, CoreError>)
        requires
            driver.wf(),
        ensures
            r is Ok,
            r matches Ok(o) ==> {
                &&& (o is Some <==> crate::driver::has_user_value(
                    driver.keys@,
                    service.id,
                    value@,
                ))
                &&& (o matches Some(k) ==> crate::driver::user_value_match(
                    k,
                    service.id,
                    value@,
                ) && driver.keys@.contains(k))
            },
    {
        Ok(driver.key_read_by_user_value(service.id, value))
    }

    /// Partially update a key; `None` leaves a field unchanged.
    pub fn update_by_id(
        driver: &mut Driver,
        _service_mask: Option<&Service>,
        _audit: &mut AuditBuilder,
        id: u128,
        is_enabled: Option<bool>,
        is_revoked: Option<bool>,
        name: Option<&str>,
    ) -> (r: Result<Key, CoreError>)
        requires
            old(driver).wf(),
        ensures
            final(driver).wf(),
            final(driver).services == old(driver).services,
            final(driver).users == old(driver).users,
            final(driver).audits == old(driver).audits,
            final(driver).csrfs == old(driver).csrfs,
            r is Ok <==> key_present(old(driver).keys@, id),
            r matches Ok(k) ==> exists|i: int|
                0 <= i < old(driver).keys@.len() && old(driver).keys@[i].id == id
                    && crate::driver::key_updated(
                    old(driver).keys@[i],
                    k,
                    final(driver).keys@[i].updated_at,
                    is_enabled,
                    is_revoked,
                    name,
                ) && final(driver).keys@ == old(driver).keys@.update(i, k),
            r is Err ==> final(driver).keys == old(driver).keys && r == Err::<Key, CoreError>(
                CoreError::Driver(DriverError::NotFound),
            ),
    {
        let now = time_now_ms();
        match driver.key_update_by_id(now, id, is_enabled, is_revoked, name) {
            Ok(k) => Ok(k),
            Err(e) => Err(CoreError::Driver(e)),
        }
    }

    /// Partially update every key bound to one user.
    pub fn update_many_by_user_id(
        driver: &mut Driver,
        _service_mask: Option<&Service>,
        _audit: &mut AuditBuilder,
        user_id: u128,
        is_enabled: Option<bool>,
        is_revoked: Option<bool>,
        name: Option<&str>,
    ) -> (r: Result<usize, CoreError>)
        requires
            old(driver).wf(),
        ensures
            final(driver).wf(),
            final(driver).services == old(driver).services,
            final(driver).users == old(driver).users,
            final(driver).audits == old(driver).audits,
            final(driver).csrfs == old(driver).csrfs,
            r is Ok,
            final(driver).keys@.len() == old(driver).keys@.len(),
            forall|i: int|
                0 <= i < old(driver).keys@.len() ==> if old(driver).keys@[i].user_id == Some(
                    user_id,
                ) {
                    crate::driver::key_updated(
                        old(driver).keys@[i],
                        #[trigger] final(driver).keys@[i],
                        final(driver).keys@[i].updated_at,
                        is_enabled,
                        is_revoked,
                        name,
                    )
                } else {
                    final(driver).keys@[i] == old(driver).keys@[i]
                },
            r matches Ok(count) ==> count as int == old(driver).keys@.filter(
                crate::driver::key_user_fn(user_id),
            ).len(),
    {
        let now = time_now_ms();
        Ok(driver.key_update_many_by_user_id(now, user_id, is_enabled, is_revoked, name))
    }

    /// Delete a key by identifier; the count of deleted rows is
    /// returned.
    pub fn delete_by_id(
        driver: &mut Driver,
        _service_mask: Option<&Service>,
        _audit: &mut AuditBuilder,
        id: u128,
    ) -> (r: Result<usize, CoreError>)
        requires
            old(driver).wf(),
        ensures
            final(driver).wf(),
            final(driver).services == old(driver).services,
            final(driver).users == old(driver).users,
            final(driver).audits == old(driver).audits,
            final(driver).csrfs == old(driver).csrfs,
            r is Ok,
            r matches Ok(count) ==> (count == 1 <==> key_present(old(driver).keys@, id)) && (
            count == 0 ==> final(driver).keys == old(driver).keys),
            r matches Ok(count) ==> (count == 1 ==> exists|i: int|
                0 <= i < old(driver).keys@.len() && old(driver).keys@[i].id == id
                    && final(driver).keys@ == old(driver).keys@.remove(i)),
            !key_present(final(driver).keys@, id),
    {
        let count = driver.key_delete_by_id(id);
        proof {
            if key_present(old(driver).keys@, id) {
                let s = old(driver).keys@;
                let w = choose|i: int| 0 <= i < s.len() && s[i].id == id;
                let j = choose|i: int|
                    0 <= i < s.len() && s[i].id == id && final(driver).keys@ == s.remove(i);
                s.remove_ensures(j);
                assert forall|m: int|
                    0 <= m < final(driver).keys@.len() implies final(driver).keys@[m].id
                    != id by {
                    if m < j {
                        assert(final(driver).keys@[m] == s[m]);
                        if m != j {
                            assert(s[m].id != s[j].id);
                        }
                    } else {
                        assert(final(driver).keys@[m] == s[m + 1]);
                        assert(s[m + 1].id != s[j].id);
                    }
                }
            }
        }
        Ok(count)
    }

    /// Delete every root key; the count of deleted rows is returned.
    pub fn delete_root(driver: &mut Driver, _audit: &mut AuditBuilder) -> (r: Result<
        usize,
        CoreError,
    >)
        requires
            old(driver).wf(),
        ensures
            final(driver).wf(),
            final(driver).services == old(driver).services,
            final(driver).users == old(driver).users,
            final(driver).audits == old(driver).audits,
            final(driver).csrfs == old(driver).csrfs,
            r is Ok,
            final(driver).keys@ == old(driver).keys@.filter(crate::driver::key_is_nonroot_fn()),
            r matches Ok(count) ==> count as int == old(driver).keys@.len()
                - final(driver).keys@.len(),
    {
        Ok(driver.key_delete_root())
    }

    /// Render the key for operator-facing output: one line per field,
    /// identifiers in decimal, the optional bindings only when
    /// present.
    pub fn display_string(&self) -> (r: String)
        ensures
            r@ == key_display_str(*self),
    {
        let mut out = String::from_str("Key ").concat(
            crate::util::u128_to_string(self.id).as_str(),
        ).concat("\n\tcreated_at ").concat(
            crate::util::i64_to_string(self.created_at).as_str(),
        ).concat("\n\tupdated_at ").concat(
            crate::util::i64_to_string(self.updated_at).as_str(),
        ).concat("\n\tis_enabled ").concat(
            crate::util::bool_to_string(self.is_enabled).as_str(),
        ).concat("\n\tis_revoked ").concat(
            crate::util::bool_to_string(self.is_revoked).as_str(),
        ).concat("\n\tname ").concat(self.name.as_str()).concat("\n\tvalue ").concat(
            self.value.as_str(),
        );
        match self.service_id {
            Some(sid) => {
                out = out.concat("\n\tservice_id ").concat(
                    crate::util::u128_to_string(sid).as_str(),
                );
            },
            None => {},
        }
        match self.user_id {
            Some(uid) => {
                out = out.concat("\n\tuser_id ").concat(
                    crate::util::u128_to_string(uid).as_str(),
                );
            },
            None => {},
        }
        out
    }

    /// Create a fresh key value: random bytes rendered as lowercase
    /// hexadecimal.
    pub fn value_generate() -> (r: String)
        ensures
            r@.len() == 2 * KEY_VALUE_BYTES,
            forall|i: int| 0 <= i < r@.len() ==> is_lower_hex_digit(#[trigger] r@[i]),
    {
        random_hex(KEY_VALUE_BYTES)
    }
}

} // verus!
