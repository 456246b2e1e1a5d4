use vstd::prelude::*;

use crate::driver::Driver;
use crate::entity::Audit;
use crate::entity::AuditMeta;
use crate::entity::Key;
use crate::entity::Service;
use crate::entity::User;
use crate::error::CoreError;
use crate::error::DriverError;
use crate::trusted::time_now_ms;
use crate::trusted::uuid_generate;

verus! {

/// The dotted event name under which a record is filed.
#[derive(Clone, Copy, Debug, PartialEq, Eq, Structural)]
pub enum AuditPath {
    AuthenticateError,
    UserPasswordUpdate,
}

/// What an authentication failure record says happened. A revoked or
/// disabled key reports `KeyNotFound`: its existence is not disclosed.
#[derive(Clone, Copy, Debug, PartialEq, Eq, Structural)]
pub enum AuditMessage {
    KeyUndefined,
    KeyNotFound,
    KeyInvalid,
    ServiceNotFound,
}

pub open spec fn audit_path_str(p: AuditPath) -> Seq<char> {
    match p {
        AuditPath::AuthenticateError => "authenticate.error"@,
        AuditPath::UserPasswordUpdate => "user.password.update"@,
    }
}

pub open spec fn audit_message_data(m: AuditMessage) -> Seq<char> {
    match m {
        AuditMessage::KeyUndefined => "{\"error\":\"KeyUndefined\"}"@,
        AuditMessage::KeyNotFound => "{\"error\":\"KeyNotFound\"}"@,
        AuditMessage::KeyInvalid => "{\"error\":\"KeyInvalid\"}"@,
        AuditMessage::ServiceNotFound => "{\"error\":\"ServiceNotFound\"}"@,
    }
}

impl AuditPath {
    /// The event name as text.
    pub fn to_type(&self) -> (r: String)
        ensures
            r@ == audit_path_str(*self),
    {
        match self {
            AuditPath::AuthenticateError => String::from_str("authenticate.error"),
            AuditPath::UserPasswordUpdate => String::from_str("user.password.update"),
        }
    }
}

impl AuditMessage {
    /// The failure as a JSON payload.
    pub fn to_data(&self) -> (r: String)
        ensures
            r@ == audit_message_data(*self),
    {
        match self {
            AuditMessage::KeyUndefined => String::from_str("{\"error\":\"KeyUndefined\"}"),
            AuditMessage::KeyNotFound => String::from_str("{\"error\":\"KeyNotFound\"}"),
            AuditMessage::KeyInvalid => String::from_str("{\"error\":\"KeyInvalid\"}"),
            AuditMessage::ServiceNotFound => String::from_str("{\"error\":\"ServiceNotFound\"}"),
        }
    }
}

/// Fields of a new audit record. `data` is the structured payload as
/// JSON text; an absent payload is stored as the empty object.
pub struct AuditCreate {
    pub meta: AuditMeta,
    pub type_: String,
    pub status_code: Option<u16>,
    pub subject: Option<String>,
    pub data: Option<String>,
    pub key_id: Option<u128>,
    pub service_id: Option<u128>,
    pub user_id: Option<u128>,
    pub user_key_id: Option<u128>,
}

/// The cursor of a list query: a bound on `created_at`, a page limit,
/// and optionally the identifier of the last record of the previous
/// page, to resume exactly past it.
///
/// `CreatedLe(le, limit, offset_id)` pages backwards from `le`;
/// `CreatedGe(ge, limit, offset_id)` pages forwards from `ge`;
/// `CreatedLeAndGe(le, ge, limit, offset_id)` pages forwards over the
/// closed interval `[ge, le]`. Every variant returns records in
/// ascending creation order.
#[derive(Clone, Copy)]
pub enum AuditListQuery {
    CreatedLe(i64, i64, Option<u128>),
    CreatedGe(i64, i64, Option<u128>),
    CreatedLeAndGe(i64, i64, i64, Option<u128>),
}

/// Optional restrictions of a list query, each a set of accepted
/// values for one column.
pub struct AuditListFilter {
    pub id: Option<Vec<u128>>,
    pub type_: Option<Vec<String>>,
    pub subject: Option<Vec<String>>,
    pub service_id: Option<Vec<u128>>,
    pub user_id: Option<Vec<u128>>,
}

impl AuditListFilter {
    /// A filter that restricts nothing.
    pub fn none() -> (r: AuditListFilter)
        ensures
            r.id is None,
            r.type_ is None,
            r.subject is None,
            r.service_id is None,
            r.user_id is None,
    {
        AuditListFilter { id: None, type_: None, subject: None, service_id: None, user_id: None }
    }
}

/// A list request: cursor and filter together.
pub struct AuditList {
    pub query: AuditListQuery,
    pub filter: AuditListFilter,
}

/// A point read: by identifier, optionally further restricted to one
/// subject.
pub struct AuditRead {
    pub id: u128,
    pub subject: Option<String>,
}

/// The terminal update of a record: outcome fields only. `status_code`
/// and `subject` are set as given; an absent `data` payload is stored
/// as the empty object.
pub struct AuditUpdate {
    pub id: u128,
    pub status_code: Option<u16>,
    pub subject: Option<String>,
    pub data: Option<String>,
}

/// Carries per-request audit metadata and the identifiers discovered
/// during authentication, so that every record it emits names the full
/// principal context.
pub struct AuditBuilder {
    pub meta: AuditMeta,
    pub key_id: Option<u128>,
    pub service_id: Option<u128>,
    pub user_id: Option<u128>,
    pub user_key_id: Option<u128>,
}

impl Clone for AuditBuilder {
    fn clone(&self) -> (r: Self)
        ensures
            r == *self,
    {
        AuditBuilder {
            meta: self.meta.clone(),
            key_id: self.key_id,
            service_id: self.service_id,
            user_id: self.user_id,
            user_key_id: self.user_key_id,
        }
    }
}

/// The record is an authentication-failure event emitted through this
/// builder: typed `authenticate.error`, carrying the failure message
/// and the builder's principal context, with no outcome yet.
pub open spec fn is_internal_audit(
    a: Audit,
    b: AuditBuilder,
    path: AuditPath,
    message: AuditMessage,
) -> bool {
    &&& a.type_@ == audit_path_str(path)
    &&& a.data@ == audit_message_data(message)
    &&& a.status_code is None
    &&& a.subject is None
    &&& a.user_agent == b.meta.user_agent
    &&& a.remote == b.meta.remote
    &&& a.forwarded == b.meta.forwarded
    &&& a.key_id == b.key_id
    &&& a.service_id == b.service_id
    &&& a.user_id == b.user_id
    &&& a.user_key_id == b.user_key_id
}

/// The audit trail `t` is `s` with exactly one failure event of this
/// builder added — or `s` itself, for the one case where the insert
/// was refused (a colliding random identifier), which the emitter
/// swallows: the operation's own failure is already on its way to the
/// caller.
pub open spec fn internal_audit_written(
    s: Seq<Audit>,
    t: Seq<Audit>,
    b: AuditBuilder,
    path: AuditPath,
    message: AuditMessage,
) -> bool {
    t == s || exists|j: int, a: Audit|
        0 <= j <= s.len() && is_internal_audit(a, b, path, message) && t == s.insert(j, a)
}

impl AuditBuilder {
    pub fn new(meta: AuditMeta) -> (r: AuditBuilder)
        ensures
            r.meta == meta,
            r.key_id is None,
            r.service_id is None,
            r.user_id is None,
            r.user_key_id is None,
    {
        AuditBuilder { meta, key_id: None, service_id: None, user_id: None, user_key_id: None }
    }

    pub fn set_key(&mut self, key: Option<&Key>)
        ensures
            final(self).key_id == (match key {
                Some(k) => Some(k.id),
                None => None::<u128>,
            }),
            final(self).meta == old(self).meta,
            final(self).service_id == old(self).service_id,
            final(self).user_id == old(self).user_id,
            final(self).user_key_id == old(self).user_key_id,
    {
        self.key_id = match key {
            Some(k) => Some(k.id),
            None => None,
        };
    }

    pub fn set_service(&mut self, service: Option<&Service>)
        ensures
            final(self).service_id == (match service {
                Some(s) => Some(s.id),
                None => None::<u128>,
            }),
            final(self).meta == old(self).meta,
            final(self).key_id == old(self).key_id,
            final(self).user_id == old(self).user_id,
            final(self).user_key_id == old(self).user_key_id,
    {
        self.service_id = match service {
            Some(s) => Some(s.id),
            None => None,
        };
    }

    pub fn set_user(&mut self, user: Option<&User>)
        ensures
            final(self).user_id == (match user {
                Some(u) => Some(u.id),
                None => None::<u128>,
            }),
            final(self).meta == old(self).meta,
            final(self).key_id == old(self).key_id,
            final(self).service_id == old(self).service_id,
            final(self).user_key_id == old(self).user_key_id,
    {
        self.user_id = match user {
            Some(u) => Some(u.id),
            None => None,
        };
    }

    pub fn set_user_key(&mut self, key: Option<&Key>)
        ensures
            final(self).user_key_id == (match key {
                Some(k) => Some(k.id),
                None => None::<u128>,
            }),
            final(self).meta == old(self).meta,
            final(self).key_id == old(self).key_id,
            final(self).service_id == old(self).service_id,
            final(self).user_id == old(self).user_id,
    {
        self.user_key_id = match key {
            Some(k) => Some(k.id),
            None => None,
        };
    }

    /// Emit an authentication-failure event. The insert is
    /// best-effort: a storage refusal is swallowed, since the audit
    /// event accompanies an operation that is already failing.
    pub fn create_internal(&self, driver: &mut Driver, path: AuditPath, message: AuditMessage)
        requires
            old(driver).wf(),
        ensures
            final(driver).wf(),
            final(driver).keys == old(driver).keys,
            final(driver).services == old(driver).services,
            final(driver).users == old(driver).users,
            final(driver).csrfs == old(driver).csrfs,
            internal_audit_written(
                old(driver).audits@,
                final(driver).audits@,
                *self,
                path,
                message,
            ),
    {
        let id = uuid_generate();
        let now = time_now_ms();
        let c = AuditCreate {
            meta: self.meta.clone(),
            type_: path.to_type(),
            status_code: None,
            subject: None,
            data: Some(message.to_data()),
            key_id: self.key_id,
            service_id: self.service_id,
            user_id: self.user_id,
            user_key_id: self.user_key_id,
        };
        let r = driver.audit_create(id, now, &c);
        proof {
            if r is Ok {
                let a = r->Ok_0;
                assert(is_internal_audit(a, *self, path, message));
            }
        }
    }

    /// Emit the record of a successful operation.
    pub fn create(
        &self,
        driver: &mut Driver,
        type_: &str,
        status_code: Option<u16>,
        subject: Option<String>,
        data: Option<String>,
    ) -> (r: Result<Audit, CoreError>)
        requires
            old(driver).wf(),
        ensures
            final(driver).wf(),
            final(driver).keys == old(driver).keys,
            final(driver).services == old(driver).services,
            final(driver).users == old(driver).users,
            final(driver).csrfs == old(driver).csrfs,
            r matches Ok(a) ==> {
                &&& a.type_@ == type_@
                &&& a.status_code == status_code
                &&& a.subject == subject
                &&& (match data {
                    Some(d) => a.data == d,
                    None => a.data@ == "{}"@,
                })
                &&& a.user_agent == self.meta.user_agent
                &&& a.remote == self.meta.remote
                &&& a.forwarded == self.meta.forwarded
                &&& a.key_id == self.key_id
                &&& a.service_id == self.service_id
                &&& a.user_id == self.user_id
                &&& a.user_key_id == self.user_key_id
                &&& exists|j: int|
                    0 <= j <= old(driver).audits@.len() && final(driver).audits@ == old(
                        driver,
                    ).audits@.insert(j, a)
            },
            r is Err ==> final(driver).audits == old(driver).audits && r == Err::<
                Audit,
                CoreError,
            >(CoreError::Driver(DriverError::Conflict)),
    {
        let id = uuid_generate();
        let now = time_now_ms();
        let c = AuditCreate {
            meta: self.meta.clone(),
            type_: type_.to_owned(),
            status_code,
            subject,
            data,
            key_id: self.key_id,
            service_id: self.service_id,
            user_id: self.user_id,
            user_key_id: self.user_key_id,
        };
        match driver.audit_create(id, now, &c) {
            Ok(a) => Ok(a),
            Err(e) => Err(CoreError::Driver(e)),
        }
    }
}

} // verus!
