use sso::AuditBuilder;
use sso::AuditMeta;
use sso::CoreError;
use sso::Driver;
use sso::Key;
use sso::Service;
use sso::ServiceCreateBody;
use sso::ServiceQuery;
use sso::ServiceUpdateBody;
use sso::User;
use sso::UserQuery;

fn meta() -> AuditMeta {
    AuditMeta::new("test-agent".to_string(), "127.0.0.1".to_string(), None)
}

fn builder() -> AuditBuilder {
    AuditBuilder::new(meta())
}

/// Root key, then a tenant, then a service key that authenticates to
/// that tenant.
#[test]
fn tenant_provisioning() {
    let mut driver = Driver::new();
    let mut audit = builder();

    let k1 = Key::create_root(&mut driver, &mut audit, true, "root-1").unwrap();

    let body = ServiceCreateBody {
        is_enabled: true,
        name: "acme".to_string(),
        url: "https://acme.example".to_string(),
    };
    let resp = sso::create_inner(&mut driver, meta(), Some(k1.value.clone()), &body).unwrap();
    let s1 = resp.data;
    assert_eq!(s1.name, "acme");
    assert_eq!(s1.url, "https://acme.example");

    let k2 = Key::create_service(&mut driver, &mut audit, true, "acme-svc", s1.id).unwrap();
    let (svc, b) = Key::authenticate_service(&mut driver, meta(), Some(k2.value.clone()))
        .unwrap();
    assert_eq!(svc.id, s1.id);
    assert_eq!(b.key_id, Some(k2.id));
    assert_eq!(b.service_id, Some(s1.id));
}

/// A user under a tenant, with a user key resolvable only inside that
/// tenant.
#[test]
fn user_under_tenant() {
    let mut driver = Driver::new();
    let mut audit = builder();

    let k1 = Key::create_root(&mut driver, &mut audit, true, "root-1").unwrap();
    let b1 = ServiceCreateBody {
        is_enabled: true,
        name: "acme".to_string(),
        url: "https://acme.example".to_string(),
    };
    let s1 = sso::create_inner(&mut driver, meta(), Some(k1.value.clone()), &b1).unwrap().data;
    let b2 = ServiceCreateBody {
        is_enabled: true,
        name: "other".to_string(),
        url: "https://other.example".to_string(),
    };
    let s2 = sso::create_inner(&mut driver, meta(), Some(k1.value.clone()), &b2).unwrap().data;

    let u1 = User::create(&mut driver, &mut audit, true, "A", "a@acme", None, s1.id).unwrap();
    assert_eq!(u1.email, "a@acme");

    let k3 = Key::create_user(&mut driver, &mut audit, true, "u-key", s1.id, u1.id).unwrap();

    let found = Key::read_by_user_value(&driver, &s1, &mut audit, &k3.value).unwrap();
    assert_eq!(found.map(|k| k.id), Some(k3.id));

    let elsewhere = Key::read_by_user_value(&driver, &s2, &mut audit, &k3.value).unwrap();
    assert!(elsewhere.is_none());

    let by_user = Key::read_by_user(&driver, &s1, &mut audit, &u1).unwrap();
    assert_eq!(by_user.map(|k| k.id), Some(k3.id));
}

/// Listing services is a root privilege: a service key never sees the
/// tenant table.
#[test]
fn service_mask_isolation_for_listing() {
    let mut driver = Driver::new();
    let mut audit = builder();

    let k1 = Key::create_root(&mut driver, &mut audit, true, "root-1").unwrap();
    let b1 = ServiceCreateBody {
        is_enabled: true,
        name: "acme".to_string(),
        url: "https://acme.example".to_string(),
    };
    let s1 = sso::create_inner(&mut driver, meta(), Some(k1.value.clone()), &b1).unwrap().data;
    let b2 = ServiceCreateBody {
        is_enabled: true,
        name: "second".to_string(),
        url: "https://second.example".to_string(),
    };
    let s2 = sso::create_inner(&mut driver, meta(), Some(k1.value.clone()), &b2).unwrap().data;
    let k2p = Key::create_service(&mut driver, &mut audit, true, "second-svc", s2.id).unwrap();

    let q = ServiceQuery { gt: None, lt: None, limit: Some(100) };
    let r = sso::list_inner(&mut driver, meta(), Some(k2p.value.clone()), q);
    assert!(matches!(r, Err(CoreError::Forbidden)));

    let q = ServiceQuery { gt: None, lt: None, limit: Some(100) };
    let all = sso::list_inner(&mut driver, meta(), Some(k1.value.clone()), q).unwrap();
    assert!(all.data.contains(&s1.id) && all.data.contains(&s2.id));

    // A masked read sees only the caller's own tenant.
    let r = sso::read_inner(&mut driver, meta(), Some(k2p.value.clone()), s1.id);
    assert!(matches!(r, Err(CoreError::NotFound)));
    let own = sso::read_inner(&mut driver, meta(), Some(k2p.value.clone()), s2.id).unwrap();
    assert_eq!(own.data.id, s2.id);
}

#[test]
fn service_update_and_delete_routes() {
    let mut driver = Driver::new();
    let mut audit = builder();

    let k1 = Key::create_root(&mut driver, &mut audit, true, "root-1").unwrap();
    let b1 = ServiceCreateBody {
        is_enabled: true,
        name: "acme".to_string(),
        url: "https://acme.example".to_string(),
    };
    let s1 = sso::create_inner(&mut driver, meta(), Some(k1.value.clone()), &b1).unwrap().data;

    let upd = ServiceUpdateBody { is_enabled: Some(false), name: Some("acme-2".to_string()) };
    let resp = sso::update_inner(&mut driver, meta(), Some(k1.value.clone()), s1.id, &upd)
        .unwrap();
    assert_eq!(resp.data.name, "acme-2");
    assert!(!resp.data.is_enabled);
    assert_eq!(resp.data.url, "https://acme.example");

    // A duplicate name is a conflict.
    let b2 = ServiceCreateBody {
        is_enabled: true,
        name: "acme-2".to_string(),
        url: "https://dup.example".to_string(),
    };
    let dup = sso::create_inner(&mut driver, meta(), Some(k1.value.clone()), &b2);
    assert!(matches!(dup, Err(CoreError::Conflict)));

    let count = sso::delete_inner(&mut driver, meta(), Some(k1.value.clone()), s1.id).unwrap();
    assert_eq!(count, 1);
    let count = sso::delete_inner(&mut driver, meta(), Some(k1.value.clone()), s1.id).unwrap();
    assert_eq!(count, 0);
}

#[test]
fn service_crud_core() {
    let mut driver = Driver::new();
    let mut audit = builder();

    let s = Service::create(
        &mut driver,
        &mut audit,
        true,
        "gamma",
        "https://gamma.example",
    )
    .unwrap();
    let got = Service::read_by_id(&driver, None, &mut audit, s.id).unwrap().unwrap();
    assert_eq!(got.name, "gamma");

    // Masked by itself: visible. Masked by another id: hidden.
    let got = Service::read_by_id(&driver, Some(&s), &mut audit, s.id).unwrap();
    assert!(got.is_some());
    let other = Service {
        created_at: 0,
        updated_at: 0,
        id: s.id.wrapping_add(1),
        is_enabled: true,
        name: "x".to_string(),
        url: "https://x.example".to_string(),
    };
    let hidden = Service::read_by_id(&driver, Some(&other), &mut audit, s.id).unwrap();
    assert!(hidden.is_none());

    let updated = Service::update_by_id(
        &mut driver,
        None,
        &mut audit,
        s.id,
        Some(false),
        None,
    )
    .unwrap();
    assert!(!updated.is_enabled);
    assert_eq!(updated.name, "gamma");

    let missing = Service::update_by_id(&mut driver, None, &mut audit, 424242, None, None);
    assert!(matches!(missing, Err(CoreError::NotFound)));

    assert_eq!(Service::delete_by_id(&mut driver, None, &mut audit, s.id).unwrap(), 1);
}

#[test]
fn user_email_is_lowercased_and_unique_per_service() {
    let mut driver = Driver::new();
    let mut audit = builder();

    let u = User::create(&mut driver, &mut audit, true, "A", "A@Acme.EXAMPLE", None, 5)
        .unwrap();
    assert_eq!(u.email, "a@acme.example");

    // The same email under another case is the same identity.
    let dup = User::create(&mut driver, &mut audit, true, "B", "a@ACME.example", None, 5);
    assert!(matches!(dup, Err(CoreError::Conflict)));

    // The same email under another service is fine.
    let other = User::create(&mut driver, &mut audit, true, "C", "a@acme.example", None, 6);
    assert!(other.is_ok());

    let found = User::read_by_email(&driver, &mut audit, 5, "A@acme.Example").unwrap();
    assert_eq!(found.map(|x| x.id), Some(u.id));
}

#[test]
fn user_password_hashing_and_update_audit() {
    let mut driver = Driver::new();
    let mut audit = builder();

    let u = User::create(
        &mut driver,
        &mut audit,
        true,
        "A",
        "a@acme",
        Some("guessable-not"),
        5,
    )
    .unwrap();
    assert!(u.password_hash.is_some());
    assert_ne!(u.password_hash.as_deref(), Some("guessable-not"));

    let before = driver.audits.len();
    let updated = User::update_by_id(
        &mut driver,
        None,
        &mut audit,
        u.id,
        None,
        None,
        Some("next-secret"),
    )
    .unwrap();
    assert!(updated.password_hash.is_some());
    assert_ne!(updated.password_hash, u.password_hash);
    assert_eq!(driver.audits.len(), before + 1);
    let rec = driver.audits.last().unwrap();
    assert_eq!(rec.type_, "user.password.update");
    assert_eq!(rec.subject.as_deref(), Some(format!("{}", u.id).as_str()));
    assert_eq!(rec.data, "{\"changed\":true}");
}

#[test]
fn user_listing_under_mask() {
    let mut driver = Driver::new();
    let mut audit = builder();

    let ua = User::create(&mut driver, &mut audit, true, "A", "a@x", None, 5).unwrap();
    let ub = User::create(&mut driver, &mut audit, true, "B", "b@x", None, 6).unwrap();

    let mask = Service {
        created_at: 0,
        updated_at: 0,
        id: 5,
        is_enabled: true,
        name: "m".to_string(),
        url: "https://m.example".to_string(),
    };
    let q = UserQuery { gt: None, lt: None, limit: Some(10) };
    let ids = User::list(&driver, Some(&mask), &mut audit, &q).unwrap();
    assert_eq!(ids, vec![ua.id]);

    let q = UserQuery { gt: None, lt: None, limit: Some(10) };
    let all = User::list(&driver, None, &mut audit, &q).unwrap();
    assert!(all.contains(&ua.id) && all.contains(&ub.id));
}

#[test]
fn key_listing_cursors_and_mask() {
    let mut driver = Driver::new();
    let value = Key::value_generate();
    // Deterministic rows, inserted out of order on purpose.
    for (id, sid) in [(30u128, Some(5u128)), (10, None), (20, Some(6))] {
        let v = format!("{}-{}", value, id);
        driver.key_create(id, 1, true, false, "k", &v, sid, None).unwrap();
    }
    let mut audit = builder();

    let q = sso::KeyQuery { gt: Some(0), lt: None, limit: Some(10) };
    let ids = Key::list(&driver, None, &mut audit, &q).unwrap();
    assert_eq!(ids, vec![10, 20, 30]);

    let q = sso::KeyQuery { gt: Some(10), lt: None, limit: Some(1) };
    let ids = Key::list(&driver, None, &mut audit, &q).unwrap();
    assert_eq!(ids, vec![20]);

    let q = sso::KeyQuery { gt: None, lt: Some(30), limit: Some(10) };
    let ids = Key::list(&driver, None, &mut audit, &q).unwrap();
    assert_eq!(ids, vec![20, 10]);

    // A masked listing never returns a root key.
    let mask = Service {
        created_at: 0,
        updated_at: 0,
        id: 5,
        is_enabled: true,
        name: "m".to_string(),
        url: "https://m.example".to_string(),
    };
    let q = sso::KeyQuery { gt: Some(0), lt: None, limit: Some(10) };
    let ids = Key::list(&driver, Some(&mask), &mut audit, &q).unwrap();
    assert_eq!(ids, vec![30]);

    // A masked point read hides the root key too.
    let r = Key::read_by_id(&driver, Some(&mask), &mut audit, 10).unwrap();
    assert!(r.is_none());
    let r = Key::read_by_id(&driver, None, &mut audit, 10).unwrap();
    assert!(r.is_some());
}

#[test]
fn key_route_body_shapes() {
    let q = sso::ListQuery { offset: None, limit: Some(25), order: Some("asc".to_string()) };
    assert_eq!(q.limit, Some(25));
    let c = sso::CreateBody { name: "fresh".to_string(), user_id: 9 };
    assert_eq!(c.user_id, 9);
    let u = sso::UpdateBody { name: Some("renamed".to_string()) };
    assert_eq!(u.name.as_deref(), Some("renamed"));
    let resp = sso::ListResponse { data: Vec::new() };
    assert!(resp.data.is_empty());
}

#[test]
fn key_update_many_and_delete() {
    let mut driver = Driver::new();
    let mut audit = builder();
    let base = Key::value_generate();
    for id in [1u128, 2, 3] {
        let v = format!("{}-{}", base, id);
        driver
            .key_create(id, 1, true, false, "k", &v, Some(5), Some(if id < 3 { 9 } else { 8 }))
            .unwrap();
    }

    let n = Key::update_many_by_user_id(
        &mut driver,
        None,
        &mut audit,
        9,
        Some(false),
        None,
        None,
    )
    .unwrap();
    assert_eq!(n, 2);
    assert!(!driver.keys[0].is_enabled && !driver.keys[1].is_enabled);
    assert!(driver.keys[2].is_enabled);

    assert_eq!(Key::delete_by_id(&mut driver, None, &mut audit, 2).unwrap(), 1);
    assert_eq!(Key::delete_by_id(&mut driver, None, &mut audit, 2).unwrap(), 0);
    assert_eq!(driver.keys.len(), 2);
}
