use sso::AuditCreate;
use sso::AuditList;
use sso::AuditListFilter;
use sso::AuditListQuery;
use sso::AuditMeta;
use sso::AuditRead;
use sso::AuditUpdate;
use sso::Driver;
use sso::DriverError;

fn meta() -> AuditMeta {
    AuditMeta::new("test-agent".to_string(), "127.0.0.1".to_string(), None)
}

fn create_of(type_: &str, service_id: Option<u128>) -> AuditCreate {
    AuditCreate {
        meta: meta(),
        type_: type_.to_string(),
        status_code: Some(200),
        subject: None,
        data: None,
        key_id: None,
        service_id,
        user_id: None,
        user_key_id: None,
    }
}

fn no_filter() -> AuditListFilter {
    AuditListFilter::none()
}

/// One thousand records over a known window; pages of one hundred,
/// resumed by the last returned identifier, reassemble the insertion
/// order exactly.
#[test]
fn pagination_visits_every_record_once() {
    let mut driver = Driver::new();
    let t0: i64 = 1_000;
    for i in 1..=1000u128 {
        let c = create_of("request", None);
        driver.audit_create(i, t0 + i as i64, &c).unwrap();
    }

    let mut collected: Vec<u128> = Vec::new();
    let mut query = AuditListQuery::CreatedGe(t0, 100, None);
    loop {
        let list = AuditList { query, filter: no_filter() };
        let page = driver.audit_list(&list, None);
        if page.is_empty() {
            break;
        }
        assert!(page.len() <= 100);
        for a in &page {
            collected.push(a.id);
        }
        let last = page.last().unwrap();
        query = AuditListQuery::CreatedGe(last.created_at, 100, Some(last.id));
    }
    let expected: Vec<u128> = (1..=1000u128).collect();
    assert_eq!(collected, expected);
}

/// Records sharing one timestamp are ordered and resumed by
/// identifier.
#[test]
fn pagination_breaks_timestamp_ties_by_id() {
    let mut driver = Driver::new();
    for i in [5u128, 1, 4, 2, 3] {
        let c = create_of("tie", None);
        driver.audit_create(i, 77, &c).unwrap();
    }
    let list = AuditList {
        query: AuditListQuery::CreatedGe(0, 2, None),
        filter: no_filter(),
    };
    let first = driver.audit_list(&list, None);
    assert_eq!(first.iter().map(|a| a.id).collect::<Vec<_>>(), vec![1, 2]);

    let last = first.last().unwrap();
    let list = AuditList {
        query: AuditListQuery::CreatedGe(last.created_at, 2, Some(last.id)),
        filter: no_filter(),
    };
    let second = driver.audit_list(&list, None);
    assert_eq!(second.iter().map(|a| a.id).collect::<Vec<_>>(), vec![3, 4]);
}

/// The backwards cursor returns the newest records at or before the
/// bound, still presented in ascending order.
#[test]
fn backwards_cursor_returns_newest_ascending() {
    let mut driver = Driver::new();
    for i in 1..=6u128 {
        let c = create_of("r", None);
        driver.audit_create(i, 10 * i as i64, &c).unwrap();
    }
    let list = AuditList {
        query: AuditListQuery::CreatedLe(45, 2, None),
        filter: no_filter(),
    };
    let page = driver.audit_list(&list, None);
    assert_eq!(page.iter().map(|a| a.id).collect::<Vec<_>>(), vec![3, 4]);

    // Resume backwards past the earliest of that page.
    let first = page.first().unwrap();
    let list = AuditList {
        query: AuditListQuery::CreatedLe(first.created_at, 2, Some(first.id)),
        filter: no_filter(),
    };
    let prev = driver.audit_list(&list, None);
    assert_eq!(prev.iter().map(|a| a.id).collect::<Vec<_>>(), vec![1, 2]);
}

/// The closed-interval cursor resumes past its boundary exactly like
/// the open one.
#[test]
fn closed_interval_cursor_resumes() {
    let mut driver = Driver::new();
    for i in 1..=9u128 {
        let c = create_of("r", None);
        driver.audit_create(i, i as i64, &c).unwrap();
    }
    let list = AuditList {
        query: AuditListQuery::CreatedLeAndGe(8, 2, 3, None),
        filter: no_filter(),
    };
    let first = driver.audit_list(&list, None);
    assert_eq!(first.iter().map(|a| a.id).collect::<Vec<_>>(), vec![2, 3, 4]);
    let last = first.last().unwrap();
    let list = AuditList {
        query: AuditListQuery::CreatedLeAndGe(8, last.created_at, 3, Some(last.id)),
        filter: no_filter(),
    };
    let second = driver.audit_list(&list, None);
    assert_eq!(second.iter().map(|a| a.id).collect::<Vec<_>>(), vec![5, 6, 7]);
}

#[test]
fn closed_interval_cursor() {
    let mut driver = Driver::new();
    for i in 1..=9u128 {
        let c = create_of("r", None);
        driver.audit_create(i, i as i64, &c).unwrap();
    }
    let list = AuditList {
        query: AuditListQuery::CreatedLeAndGe(7, 3, 100, None),
        filter: no_filter(),
    };
    let page = driver.audit_list(&list, None);
    assert_eq!(
        page.iter().map(|a| a.id).collect::<Vec<_>>(),
        vec![3, 4, 5, 6, 7]
    );
}

/// A masked listing never returns another tenant's record.
#[test]
fn masked_listing_is_tenant_isolated() {
    let mut driver = Driver::new();
    for i in 1..=10u128 {
        let sid = if i % 2 == 0 { Some(8u128) } else { Some(9u128) };
        let c = create_of("r", sid);
        driver.audit_create(i, i as i64, &c).unwrap();
    }
    let list = AuditList {
        query: AuditListQuery::CreatedGe(0, 100, None),
        filter: no_filter(),
    };
    let page = driver.audit_list(&list, Some(8));
    assert_eq!(page.len(), 5);
    assert!(page.iter().all(|a| a.service_id == Some(8)));
}

#[test]
fn filters_restrict_by_type_and_id() {
    let mut driver = Driver::new();
    for (i, t) in [(1u128, "a.b"), (2, "c.d"), (3, "a.b")] {
        let c = create_of(t, None);
        driver.audit_create(i, i as i64, &c).unwrap();
    }
    let filter = AuditListFilter {
        id: None,
        type_: Some(vec!["a.b".to_string()]),
        subject: None,
        service_id: None,
        user_id: None,
    };
    let list = AuditList { query: AuditListQuery::CreatedGe(0, 100, None), filter };
    let page = driver.audit_list(&list, None);
    assert_eq!(page.iter().map(|a| a.id).collect::<Vec<_>>(), vec![1, 3]);

    let filter = AuditListFilter {
        id: Some(vec![2]),
        type_: None,
        subject: None,
        service_id: None,
        user_id: None,
    };
    let list = AuditList { query: AuditListQuery::CreatedGe(0, 100, None), filter };
    let page = driver.audit_list(&list, None);
    assert_eq!(page.iter().map(|a| a.id).collect::<Vec<_>>(), vec![2]);
}

#[test]
fn create_read_update_delete_round_trip() {
    let mut driver = Driver::new();
    let c = AuditCreate {
        meta: meta(),
        type_: "request".to_string(),
        status_code: None,
        subject: None,
        data: Some("{\"k\":1}".to_string()),
        key_id: Some(4),
        service_id: Some(5),
        user_id: None,
        user_key_id: None,
    };
    let a = driver.audit_create(70, 12, &c).unwrap();
    assert_eq!(a.id, 70);
    assert_eq!(a.created_at, 12);
    assert_eq!(a.data, "{\"k\":1}");
    assert!(a.status_code.is_none());

    // A duplicate identifier is a storage conflict.
    let dup = driver.audit_create(70, 13, &c);
    assert_eq!(dup.unwrap_err(), DriverError::Conflict);

    let got = driver
        .audit_read(&AuditRead { id: 70, subject: None }, None)
        .unwrap();
    assert_eq!(got.id, 70);
    // Masked read from another tenant finds nothing.
    assert!(driver.audit_read(&AuditRead { id: 70, subject: None }, Some(6)).is_none());

    let u = AuditUpdate {
        id: 70,
        status_code: Some(200),
        subject: Some("svc:5".to_string()),
        data: None,
    };
    let a2 = driver.audit_update(20, &u, Some(5)).unwrap();
    assert_eq!(a2.status_code, Some(200));
    assert_eq!(a2.subject.as_deref(), Some("svc:5"));
    assert_eq!(a2.data, "{}");
    assert_eq!(a2.created_at, 12);
    assert_eq!(a2.updated_at, 20);

    let missing = driver.audit_update(21, &AuditUpdate { id: 70, status_code: None, subject: None, data: None }, Some(9));
    assert_eq!(missing.unwrap_err(), DriverError::NotFound);

    // Retention: everything at or before the cutoff goes.
    let c2 = create_of("r", None);
    driver.audit_create(71, 30, &c2).unwrap();
    let removed = driver.audit_delete(12);
    assert_eq!(removed, 1);
    assert_eq!(driver.audits.len(), 1);
    assert_eq!(driver.audits[0].id, 71);
}

#[test]
fn metrics_counts_by_type_and_status() {
    let mut driver = Driver::new();
    let rows = [
        (1u128, "a", Some(200u16), Some(5u128), 10i64),
        (2, "a", Some(200), Some(5), 11),
        (3, "a", Some(500), Some(5), 12),
        (4, "b", Some(200), Some(6), 13),
        (5, "c", None, Some(5), 14),
        (6, "a", Some(200), Some(5), 2),
    ];
    for (id, t, sc, sid, at) in rows {
        let c = AuditCreate {
            meta: meta(),
            type_: t.to_string(),
            status_code: sc,
            subject: None,
            data: None,
            key_id: None,
            service_id: sid,
            user_id: None,
            user_key_id: None,
        };
        driver.audit_create(id, at, &c).unwrap();
    }
    // From time 5: the record at time 2 is out; the in-flight record
    // (no status) is never counted.
    let m = driver.audit_read_metrics(5, None);
    let mut m: Vec<(String, u16, u64)> = m;
    m.sort();
    assert_eq!(
        m,
        vec![
            ("a".to_string(), 200, 2),
            ("a".to_string(), 500, 1),
            ("b".to_string(), 200, 1),
        ]
    );
    // Masked: only tenant 5's records.
    let mut m = driver.audit_read_metrics(0, Some(5));
    m.sort();
    assert_eq!(
        m,
        vec![("a".to_string(), 200, 3), ("a".to_string(), 500, 1)]
    );
}
