use sso::AuditBuilder;
use sso::AuditMeta;
use sso::CoreError;
use sso::Driver;
use sso::Key;

fn meta() -> AuditMeta {
    AuditMeta::new("test-agent".to_string(), "127.0.0.1".to_string(), None)
}

fn builder() -> AuditBuilder {
    AuditBuilder::new(meta())
}

#[test]
fn bootstrap_root_key_round_trip() {
    let mut driver = Driver::new();
    let mut audit = builder();

    let removed = Key::delete_root(&mut driver, &mut audit).unwrap();
    assert_eq!(removed, 0);

    let k1 = Key::create_root(&mut driver, &mut audit, true, "root-1").unwrap();
    assert!(k1.is_enabled);
    assert!(!k1.is_revoked);
    assert_eq!(k1.name, "root-1");
    assert!(k1.service_id.is_none() && k1.user_id.is_none());

    let ok = Key::authenticate_root(&mut driver, meta(), Some(k1.value.clone()));
    assert!(ok.is_ok());
    let b = ok.unwrap();
    assert_eq!(b.key_id, Some(k1.id));
    assert_eq!(driver.audits.len(), 0);

    let bad = Key::authenticate_root(&mut driver, meta(), Some("nope".to_string()));
    assert!(matches!(bad, Err(CoreError::Forbidden)));
    assert_eq!(driver.audits.len(), 1);
    assert_eq!(driver.audits[0].type_, "authenticate.error");
    assert_eq!(driver.audits[0].data, "{\"error\":\"KeyNotFound\"}");
}

#[test]
fn absent_credential_is_forbidden_and_audited_once() {
    let mut driver = Driver::new();

    let r = Key::authenticate_root(&mut driver, meta(), None);
    assert!(matches!(r, Err(CoreError::Forbidden)));
    assert_eq!(driver.audits.len(), 1);
    assert_eq!(driver.audits[0].type_, "authenticate.error");
    assert_eq!(driver.audits[0].data, "{\"error\":\"KeyUndefined\"}");
    assert_eq!(driver.audits[0].user_agent, "test-agent");
    assert_eq!(driver.audits[0].remote, "127.0.0.1");
    assert!(driver.audits[0].key_id.is_none());
    assert!(driver.audits[0].status_code.is_none());

    let r = Key::authenticate_service(&mut driver, meta(), None);
    assert!(matches!(r, Err(CoreError::Forbidden)));
    assert_eq!(driver.audits.len(), 2);

    let r = Key::authenticate(&mut driver, meta(), None);
    assert!(matches!(r, Err(CoreError::Forbidden)));
    assert_eq!(driver.audits.len(), 3);
}

#[test]
fn cross_tier_credentials_are_rejected() {
    let mut driver = Driver::new();
    let mut audit = builder();

    let root = Key::create_root(&mut driver, &mut audit, true, "root").unwrap();
    let service = sso::Service {
        created_at: 1,
        updated_at: 1,
        id: 7,
        is_enabled: true,
        name: "acme".to_string(),
        url: "https://acme.example".to_string(),
    };
    driver.services.push(service);
    let svc_key = Key::create_service(&mut driver, &mut audit, true, "svc", 7).unwrap();

    // A root-typed value fails service-tier authentication.
    let r = Key::authenticate_service(&mut driver, meta(), Some(root.value.clone()));
    assert!(matches!(r, Err(CoreError::Forbidden)));
    assert_eq!(driver.audits.last().unwrap().data, "{\"error\":\"KeyNotFound\"}");

    // A service-typed value fails root-tier authentication.
    let r = Key::authenticate_root(&mut driver, meta(), Some(svc_key.value.clone()));
    assert!(matches!(r, Err(CoreError::Forbidden)));

    // The dual-tier entry point accepts either, attaching the
    // resolved principal to the returned builder.
    let (principal, b) =
        Key::authenticate(&mut driver, meta(), Some(root.value.clone())).unwrap();
    assert!(principal.is_none());
    assert_eq!(b.key_id, Some(root.id));
    assert!(b.service_id.is_none());
    let (principal, b) =
        Key::authenticate(&mut driver, meta(), Some(svc_key.value.clone())).unwrap();
    assert_eq!(principal.map(|s| s.id), Some(7));
    assert_eq!(b.key_id, Some(svc_key.id));
    assert_eq!(b.service_id, Some(7));
}

#[test]
fn revoked_or_disabled_key_reads_as_not_found() {
    let mut driver = Driver::new();
    let mut audit = builder();

    let service = sso::Service {
        created_at: 1,
        updated_at: 1,
        id: 9,
        is_enabled: true,
        name: "beta".to_string(),
        url: "https://beta.example".to_string(),
    };
    driver.services.push(service);
    let k = Key::create_service(&mut driver, &mut audit, true, "svc", 9).unwrap();

    Key::update_by_id(&mut driver, None, &mut audit, k.id, None, Some(true), None).unwrap();
    let r = Key::authenticate_service(&mut driver, meta(), Some(k.value.clone()));
    assert!(matches!(r, Err(CoreError::Forbidden)));
    assert_eq!(driver.audits.last().unwrap().data, "{\"error\":\"KeyNotFound\"}");

    // Un-revoking does not help: a revoked key stays revoked only by
    // the caller's choice; disable instead and check again.
    Key::update_by_id(&mut driver, None, &mut audit, k.id, Some(false), Some(false), None)
        .unwrap();
    let r = Key::authenticate_service(&mut driver, meta(), Some(k.value.clone()));
    assert!(matches!(r, Err(CoreError::Forbidden)));
    assert_eq!(driver.audits.last().unwrap().data, "{\"error\":\"KeyNotFound\"}");

    // Re-enabled and unrevoked, the key authenticates again.
    Key::update_by_id(&mut driver, None, &mut audit, k.id, Some(true), Some(false), None)
        .unwrap();
    let r = Key::authenticate_service(&mut driver, meta(), Some(k.value.clone()));
    assert!(r.is_ok());
}

#[test]
fn missing_service_row_is_audited_as_service_not_found() {
    let mut driver = Driver::new();
    let mut audit = builder();

    // A service key whose tenant row is gone: create the key row
    // directly with a dangling service binding.
    let value = Key::value_generate();
    driver
        .key_create(42, 5, true, false, "orphan", &value, Some(77), None)
        .unwrap();
    let r = Key::authenticate_service(&mut driver, meta(), Some(value));
    assert!(matches!(r, Err(CoreError::Forbidden)));
    assert_eq!(driver.audits.last().unwrap().data, "{\"error\":\"ServiceNotFound\"}");
    // The builder had already resolved the key, so the event names it.
    assert_eq!(driver.audits.last().unwrap().key_id, Some(42));
    let _ = audit;
}

#[test]
fn key_value_generation_shape_and_uniqueness() {
    let v = Key::value_generate();
    assert_eq!(v.len(), 42);
    assert!(v.chars().all(|c| c.is_ascii_hexdigit() && !c.is_ascii_uppercase()));

    let mut seen = std::collections::HashSet::new();
    for _ in 0..100_000 {
        let v = Key::value_generate();
        assert_eq!(v.len(), 42);
        assert!(seen.insert(v), "collision among generated key values");
    }
}

/// Every hex digit appears with a frequency near the uniform share.
#[test]
fn key_value_digits_are_spread_over_the_alphabet() {
    let mut counts = [0u64; 16];
    let samples = 10_000;
    for _ in 0..samples {
        for c in Key::value_generate().chars() {
            let d = c.to_digit(16).expect("hex digit") as usize;
            counts[d] += 1;
        }
    }
    let total: u64 = counts.iter().sum();
    assert_eq!(total, samples * 42);
    // Expected share is 1/16 = 6.25%; allow a generous band.
    for &n in counts.iter() {
        let share = n as f64 / total as f64;
        assert!(share > 0.055 && share < 0.07, "skewed digit share {}", share);
    }
}

#[test]
fn key_display_rendering() {
    let k = sso::Key {
        created_at: -5,
        updated_at: 12,
        id: 300,
        is_enabled: true,
        is_revoked: false,
        name: "main".to_string(),
        value: "abc123".to_string(),
        service_id: Some(7),
        user_id: None,
    };
    assert_eq!(
        k.display_string(),
        "Key 300\n\tcreated_at -5\n\tupdated_at 12\n\tis_enabled true\n\tis_revoked false\n\tname main\n\tvalue abc123\n\tservice_id 7"
    );
}

#[test]
fn error_status_codes_follow_the_taxonomy() {
    assert_eq!(CoreError::BadRequest.status_code(), 400);
    assert_eq!(CoreError::Forbidden.status_code(), 403);
    assert_eq!(CoreError::NotFound.status_code(), 404);
    assert_eq!(CoreError::Conflict.status_code(), 409);
    assert_eq!(CoreError::Driver(sso::DriverError::Conflict).status_code(), 500);
    assert_eq!(CoreError::Metrics.status_code(), 500);
}

#[test]
fn ping_and_metric_names() {
    assert_eq!(sso::ping(), "pong");
    assert_eq!(sso::Metrics::name("audit"), "sso_audit");
    assert_eq!(sso::Metrics::memory_bytes(4).unwrap(), 4096);
    assert!(matches!(
        sso::Metrics::memory_bytes(u64::MAX),
        Err(CoreError::Metrics)
    ));
}

#[test]
fn request_audit_meta_requires_remote_and_agent() {
    let ok = sso::request_audit_meta(
        Some("ua".to_string()),
        Some("10.0.0.1".to_string()),
        Some("fwd".to_string()),
    )
    .unwrap();
    assert_eq!(ok.user_agent, "ua");
    assert_eq!(ok.remote, "10.0.0.1");
    assert_eq!(ok.forwarded.as_deref(), Some("fwd"));
    assert!(matches!(
        sso::request_audit_meta(None, Some("10.0.0.1".to_string()), None),
        Err(CoreError::BadRequest)
    ));
    assert!(matches!(
        sso::request_audit_meta(Some("ua".to_string()), None, None),
        Err(CoreError::BadRequest)
    ));
}
