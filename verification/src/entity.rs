use vstd::prelude::*;

verus! {

/// A tenant. Owns keys, users and audit records.
#[derive(Debug)]
pub struct Service {
    pub created_at: i64,
    pub updated_at: i64,
    pub id: u128,
    pub is_enabled: bool,
    pub name: String,
    pub url: String,
}

/// An account scoped to one service. `email` is stored lowercased and is
/// unique per service.
#[derive(Debug)]
pub struct User {
    pub created_at: i64,
    pub updated_at: i64,
    pub id: u128,
    pub is_enabled: bool,
    pub name: String,
    pub email: String,
    pub password_hash: Option<String>,
    pub service_id: u128,
}

/// A bearer credential. The privilege tier is encoded by the nullability
/// pattern of `service_id` and `user_id`:
/// root (none, none), service (some, none), user (some, some).
#[derive(Debug)]
pub struct Key {
    pub created_at: i64,
    pub updated_at: i64,
    pub id: u128,
    pub is_enabled: bool,
    pub is_revoked: bool,
    pub name: String,
    pub value: String,
    pub service_id: Option<u128>,
    pub user_id: Option<u128>,
}

/// One entry of the audit trail. Once created, only `status_code`,
/// `subject` and `data` (and `updated_at`) may change.
#[derive(Debug)]
pub struct Audit {
    pub created_at: i64,
    pub updated_at: i64,
    pub id: u128,
    pub user_agent: String,
    pub remote: String,
    pub forwarded: Option<String>,
    pub status_code: Option<u16>,
    pub type_: String,
    pub subject: Option<String>,
    pub data: String,
    pub key_id: Option<u128>,
    pub service_id: Option<u128>,
    pub user_id: Option<u128>,
    pub user_key_id: Option<u128>,
}

/// A single-use OAuth2 `state` record: consumed on the first callback
/// that presents it, whatever the outcome.
#[derive(Debug)]
pub struct Csrf {
    pub created_at: i64,
    pub key: String,
    pub service_id: u128,
    pub provider: String,
    pub expires_at: i64,
}

/// Per-request audit metadata, derived once from the inbound request.
#[derive(Debug)]
pub struct AuditMeta {
    pub user_agent: String,
    pub remote: String,
    pub forwarded: Option<String>,
}

impl AuditMeta {
    pub fn new(user_agent: String, remote: String, forwarded: Option<String>) -> (r: AuditMeta)
        ensures
            r.user_agent == user_agent,
            r.remote == remote,
            r.forwarded == forwarded,
    {
        AuditMeta { user_agent, remote, forwarded }
    }

    pub fn user_agent(&self) -> (r: &String)
        ensures
            r == self.user_agent,
    {
        &self.user_agent
    }

    pub fn remote(&self) -> (r: &String)
        ensures
            r == self.remote,
    {
        &self.remote
    }

    pub fn forwarded(&self) -> (r: &Option<String>)
        ensures
            r == self.forwarded,
    {
        &self.forwarded
    }
}

pub(crate) fn clone_opt_string(o: &Option<String>) -> (r: Option<String>)
    ensures
        r == *o,
{
    match o {
        Some(s) => Some(s.clone()),
        None => None,
    }
}

impl Clone for AuditMeta {
    fn clone(&self) -> (r: Self)
        ensures
            r == *self,
    {
        AuditMeta {
            user_agent: self.user_agent.clone(),
            remote: self.remote.clone(),
            forwarded: clone_opt_string(&self.forwarded),
        }
    }
}

impl Clone for Service {
    fn clone(&self) -> (r: Self)
        ensures
            r == *self,
    {
        Service {
            created_at: self.created_at,
            updated_at: self.updated_at,
            id: self.id,
            is_enabled: self.is_enabled,
            name: self.name.clone(),
            url: self.url.clone(),
        }
    }
}

impl Clone for User {
    fn clone(&self) -> (r: Self)
        ensures
            r == *self,
    {
        User {
            created_at: self.created_at,
            updated_at: self.updated_at,
            id: self.id,
            is_enabled: self.is_enabled,
            name: self.name.clone(),
            email: self.email.clone(),
            password_hash: clone_opt_string(&self.password_hash),
            service_id: self.service_id,
        }
    }
}

impl Clone for Key {
    fn clone(&self) -> (r: Self)
        ensures
            r == *self,
    {
        Key {
            created_at: self.created_at,
            updated_at: self.updated_at,
            id: self.id,
            is_enabled: self.is_enabled,
            is_revoked: self.is_revoked,
            name: self.name.clone(),
            value: self.value.clone(),
            service_id: self.service_id,
            user_id: self.user_id,
        }
    }
}

impl Clone for Audit {
    fn clone(&self) -> (r: Self)
        ensures
            r == *self,
    {
        Audit {
            created_at: self.created_at,
            updated_at: self.updated_at,
            id: self.id,
            user_agent: self.user_agent.clone(),
            remote: self.remote.clone(),
            forwarded: clone_opt_string(&self.forwarded),
            status_code: self.status_code,
            type_: self.type_.clone(),
            subject: clone_opt_string(&self.subject),
            data: self.data.clone(),
            key_id: self.key_id,
            service_id: self.service_id,
            user_id: self.user_id,
            user_key_id: self.user_key_id,
        }
    }
}

impl Clone for Csrf {
    fn clone(&self) -> (r: Self)
        ensures
            r == *self,
    {
        Csrf {
            created_at: self.created_at,
            key: self.key.clone(),
            service_id: self.service_id,
            provider: self.provider.clone(),
            expires_at: self.expires_at,
        }
    }
}

/// The key grants root privilege: it is bound to no service and no user.
pub open spec fn is_root_key(k: Key) -> bool {
    k.service_id is None && k.user_id is None
}

/// The key acts on behalf of a tenant.
pub open spec fn is_service_key(k: Key) -> bool {
    k.service_id is Some && k.user_id is None
}

/// The key acts on behalf of one user within a tenant.
pub open spec fn is_user_key(k: Key) -> bool {
    k.service_id is Some && k.user_id is Some
}

/// A key may authenticate only while enabled and never once revoked.
pub open spec fn key_is_live(k: Key) -> bool {
    k.is_enabled && !k.is_revoked
}

/// Every key's shape is one of root, service or user: a bound user
/// always implies a bound service.
pub open spec fn key_shape_ok(k: Key) -> bool {
    k.user_id is Some ==> k.service_id is Some
}

} // verus!
