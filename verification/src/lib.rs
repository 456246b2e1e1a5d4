//! Multi-tenant authentication and single-sign-on core.
//!
//! The library issues and validates bearer credentials for services
//! (tenants) and the users registered against those services, brokers
//! third-party OAuth2 logins, and records an audit trail of every
//! authentication-relevant event. Storage is an in-memory backend that
//! implements the driver data contract (filters, ordering, service-mask
//! semantics); every core operation flows through it.

mod audit;
mod audit_store;
mod driver;
mod entity;
mod error;
mod key;
mod laws;
mod metrics;
mod oauth2;
mod routes;
mod service;
mod tenant_store;
mod trusted;
mod user;
mod util;

pub use entity::Audit;
pub use entity::AuditMeta;
pub use entity::Csrf;
pub use entity::Key;
pub use entity::Service;
pub use entity::User;
pub use entity::is_root_key;
pub use entity::is_service_key;
pub use entity::is_user_key;
pub use entity::key_is_live;
pub use entity::key_shape_ok;
pub use audit::AuditCreate;
pub use audit::AuditList;
pub use audit::AuditListFilter;
pub use audit::AuditListQuery;
pub use audit::AuditRead;
pub use audit::AuditUpdate;
pub use audit::AuditBuilder;
pub use audit::AuditMessage;
pub use audit::AuditPath;
pub use driver::Driver;
pub use key::KEY_VALUE_BYTES;
pub use key::KeyQuery;
pub use laws::lemma_audit_list_mask_isolated;
pub use laws::lemma_dead_key_never_matches;
pub use laws::lemma_key_list_mask_isolated;
pub use laws::lemma_keys_well_shaped;
pub use laws::lemma_pagination_resumes;
pub use laws::audit_window;
pub use laws::resume_query;
pub use laws::first_query;
pub use laws::paginate_from;
pub use laws::ties_fit_page;
pub use laws::lemma_pagination_exhaustive;
pub use laws::key_id_of_tenant;
pub use laws::lemma_reject_audit_shape;
pub use laws::lemma_state_single_use;
pub use laws::lemma_tiers_exclusive;
pub use metrics::Metrics;
pub use routes::CreateBody;
pub use routes::ListQuery;
pub use routes::ListResponse;
pub use routes::ServiceCreateBody;
pub use routes::ServiceListResponse;
pub use routes::ServiceReadResponse;
pub use routes::ServiceUpdateBody;
pub use routes::UpdateBody;
pub use routes::create_inner;
pub use routes::delete_inner;
pub use routes::list_inner;
pub use routes::metrics_inner;
pub use routes::ping;
pub use routes::read_inner;
pub use routes::request_audit_meta;
pub use routes::update_inner;
pub use oauth2::CallbackQuery;
pub use oauth2::Client;
pub use oauth2::TokenData;
pub use oauth2::UrlResponse;
pub use oauth2::oauth2_authorize;
pub use oauth2::oauth2_callback_state;
pub use oauth2::oauth2_login;
pub use oauth2::oauth2_redirect;
pub use service::ServiceQuery;
pub use user::UserQuery;
pub use error::CoreError;
pub use error::DriverError;

use vstd::prelude::*;

verus! {

/// Default page size used by list operations when the caller gives no limit.
pub const DEFAULT_LIST_LIMIT: i64 = 10;

} // verus!
