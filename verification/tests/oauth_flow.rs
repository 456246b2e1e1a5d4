use sso::AuditBuilder;
use sso::AuditMeta;
use sso::Client;
use sso::CoreError;
use sso::Driver;
use sso::Key;
use sso::Service;
use sso::User;

fn meta() -> AuditMeta {
    AuditMeta::new("test-agent".to_string(), "127.0.0.1".to_string(), None)
}

fn builder() -> AuditBuilder {
    AuditBuilder::new(meta())
}

fn provider() -> Client {
    Client {
        server_authorize_uri: "https://provider.example/oauth/authorize".to_string(),
        server_token_uri: "https://provider.example/oauth/token".to_string(),
        server_introspect_uri: "https://provider.example/oauth/introspect".to_string(),
        client_id: "our-client".to_string(),
        client_secret: "SECRET-REDACTED".to_string(),
        redirect_uri: "https://sso.example/v1/auth/oauth2/github".to_string(),
        client_name: "github".to_string(),
        client_uri: "https://sso.example".to_string(),
        enable: true,
        scope: "user:email".to_string(),
        user_scope: "user:email".to_string(),
        register_enable: false,
        register_scope: String::new(),
        ttl: 300,
    }
}

fn acme(driver: &mut Driver) -> Service {
    let mut audit = builder();
    Service::create(
        driver,
        &mut audit,
        true,
        "acme",
        "https://acme.example",
    )
    .unwrap()
}

/// The whole brokered login: authorize URL with our `state`, a wrong
/// `state` refused, the right `state` accepted once, the token bound
/// to the local user, the closing redirect, and the `state` dead on
/// a second presentation.
#[test]
fn brokered_login_end_to_end() {
    let mut driver = Driver::new();
    let s1 = acme(&mut driver);
    let mut audit = builder();
    User::create(&mut driver, &mut audit, true, "A", "a@acme", None, s1.id).unwrap();

    let now: i64 = 1_000;
    let url = sso::oauth2_authorize(&mut driver, &provider(), s1.id, now).unwrap();
    assert_eq!(driver.csrfs.len(), 1);
    let state = driver.csrfs[0].key.clone();
    assert!(url.starts_with("https://provider.example/oauth/authorize?"));
    assert!(url.contains(&format!("state={}", state)));
    assert!(url.contains("client_id=our-client"));
    assert_eq!(driver.csrfs[0].service_id, s1.id);
    assert_eq!(driver.csrfs[0].provider, "github");
    assert_eq!(driver.csrfs[0].expires_at, now + 300);

    // A different state never entered the store: refused.
    let r = sso::oauth2_callback_state(&mut driver, "wrong-state", "github", now + 1);
    assert!(matches!(r, Err(CoreError::BadRequest)));
    assert_eq!(driver.csrfs.len(), 1);

    // The right state is accepted once, resolving the tenant.
    let sid = sso::oauth2_callback_state(&mut driver, &state, "github", now + 1).unwrap();
    assert_eq!(sid, s1.id);
    assert_eq!(driver.csrfs.len(), 0);

    // The provider (stubbed) verified the email; bind it locally.
    let (token, service) = sso::oauth2_login(&mut driver, "a@acme", sid).unwrap();
    assert!(!token.token.is_empty());
    assert_eq!(service.id, s1.id);

    let location = sso::oauth2_redirect(token, service).unwrap();
    assert!(location.starts_with("https://acme.example/?token="));

    // Single use: a second callback with the same state is refused.
    let r = sso::oauth2_callback_state(&mut driver, &state, "github", now + 2);
    assert!(matches!(r, Err(CoreError::BadRequest)));
}

#[test]
fn state_expiry_and_provider_are_checked_and_consume() {
    let mut driver = Driver::new();
    let s1 = acme(&mut driver);
    let now: i64 = 1_000;

    // Expired on arrival: refused, and still consumed.
    driver.csrf_create("stale", s1.id, "github", now - 400, now - 100).unwrap();
    let r = sso::oauth2_callback_state(&mut driver, "stale", "github", now);
    assert!(matches!(r, Err(CoreError::BadRequest)));
    assert!(driver.csrfs.is_empty());

    // Wrong provider: refused, and still consumed.
    driver.csrf_create("crossed", s1.id, "github", now, now + 300).unwrap();
    let r = sso::oauth2_callback_state(&mut driver, "crossed", "microsoft", now);
    assert!(matches!(r, Err(CoreError::BadRequest)));
    assert!(driver.csrfs.is_empty());

    // A duplicate state value cannot be stored.
    driver.csrf_create("one", s1.id, "github", now, now + 300).unwrap();
    let dup = driver.csrf_create("one", s1.id, "github", now, now + 300);
    assert!(dup.is_err());
}

#[test]
fn login_binds_email_and_mints_token_once() {
    let mut driver = Driver::new();
    let s1 = acme(&mut driver);
    let mut audit = builder();
    let u = User::create(&mut driver, &mut audit, true, "A", "A@Acme", None, s1.id).unwrap();

    // Unknown tenant.
    let r = sso::oauth2_login(&mut driver, "a@acme", s1.id.wrapping_add(1));
    assert!(matches!(r, Err(CoreError::NotFound)));

    // Unknown email under the tenant.
    let r = sso::oauth2_login(&mut driver, "nobody@acme", s1.id);
    assert!(matches!(r, Err(CoreError::Forbidden)));

    // First login mints a user key; the email is case-folded.
    let (t1, _) = sso::oauth2_login(&mut driver, "a@ACME", s1.id).unwrap();
    assert_eq!(t1.user_id, u.id);
    let k = Key::read_by_user(&driver, &s1, &mut audit, &u).unwrap().unwrap();
    assert_eq!(k.value, t1.token);

    // A second login returns the same token, minting nothing new.
    let keys_before = driver.keys.len();
    let (t2, _) = sso::oauth2_login(&mut driver, "a@acme", s1.id).unwrap();
    assert_eq!(t2.token, t1.token);
    assert_eq!(driver.keys.len(), keys_before);
}

#[test]
fn provider_getters_return_configuration() {
    let c = provider();
    assert_eq!(c.client_name(), "github");
    assert_eq!(c.client_uri(), "https://sso.example");
    assert_eq!(c.server_authorize_uri(), "https://provider.example/oauth/authorize");
    assert_eq!(c.server_token_uri(), "https://provider.example/oauth/token");
    assert_eq!(c.server_introspect_uri(), "https://provider.example/oauth/introspect");
    assert_eq!(c.client_id(), "our-client");
    assert_eq!(c.client_secret(), "SECRET-REDACTED");
    assert_eq!(c.redirect_uri(), "https://sso.example/v1/auth/oauth2/github");
}

#[test]
fn redirect_refuses_an_unparsable_service_url() {
    let token = sso::TokenData { user_id: 1, token: "tok".to_string() };
    let service = Service {
        created_at: 0,
        updated_at: 0,
        id: 1,
        is_enabled: true,
        name: "bad".to_string(),
        url: "not a url".to_string(),
    };
    let r = sso::oauth2_redirect(token, service);
    assert!(matches!(r, Err(CoreError::BadRequest)));
}

/// The metrics route end to end: authenticated, with the audit
/// counters derived from the trail.
#[test]
fn metrics_route_composes_sections() {
    let mut driver = Driver::new();
    let mut audit = builder();
    let k1 = Key::create_root(&mut driver, &mut audit, true, "root-1").unwrap();

    // Leave one rejected attempt in the trail so a counter exists.
    let _ = Key::authenticate_root(&mut driver, meta(), Some("nope".to_string()));
    let u = sso::AuditUpdate {
        id: driver.audits[0].id,
        status_code: Some(403),
        subject: None,
        data: None,
    };
    driver.audit_update(5, &u, None).unwrap();

    let registry = prometheus::Registry::new();
    let text = sso::metrics_inner(
        &mut driver,
        &registry,
        "process_resident_memory_bytes 1",
        meta(),
        Some(k1.value.clone()),
    )
    .unwrap();
    assert!(text.starts_with("process_resident_memory_bytes 1\n"));
    assert!(text.contains("sso_audit"));
    assert!(text.contains("authenticate.error"));

    let denied = sso::metrics_inner(&mut driver, &registry, "x", meta(), None);
    assert!(matches!(denied, Err(CoreError::Forbidden)));
}
