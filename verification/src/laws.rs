use vstd::prelude::*;

use crate::audit::AuditMessage;
use crate::audit::AuditPath;
use crate::audit::audit_message_data;
use crate::audit::internal_audit_written;
use crate::audit::is_internal_audit;
use crate::audit_store::audit_list_spec;
use crate::audit_store::audit_ordered;
use crate::audit_store::audit_window_pred;
use crate::oauth2::csrf_accepts;
use crate::driver::Driver;
use crate::driver::audit_ids_unique;
use crate::driver::audits_sorted;
use crate::driver::clamp_limit;
use crate::driver::has_root_value;
use crate::driver::has_service_value;
use crate::driver::has_user_value;
use crate::driver::key_in_mask;
use crate::driver::key_values_unique;
use crate::driver::keys_shaped;
use crate::driver::root_value_match;
use crate::driver::service_value_match;
use crate::driver::user_value_match;
use crate::entity::AuditMeta;
use crate::entity::Csrf;
use crate::entity::Key;
use crate::entity::key_is_live;
use crate::key::bare_builder;

verus! {

/// Every key is root-, service- or user-shaped: a bound user always
/// implies a bound service. The store's well-formedness carries this
/// for every row at all times.
pub proof fn lemma_keys_well_shaped(d: Driver)
    requires
        d.wf(),
    ensures
        forall|i: int|
            0 <= i < d.keys@.len() ==> (#[trigger] d.keys@[i].user_id is Some
                ==> d.keys@[i].service_id is Some),
{
    assert(keys_shaped(d.keys@));
}

/// A bearer value matches at most one privilege tier: a value that
/// resolves to a root key cannot also resolve to a service or user
/// key, and the other way round. So service-tier authentication of a
/// root-typed value fails, and root-tier authentication of a
/// service-typed value fails.
pub proof fn lemma_tiers_exclusive(d: Driver, v: Seq<char>)
    requires
        d.wf(),
    ensures
        has_root_value(d.keys@, v) ==> !has_service_value(d.keys@, v),
        has_service_value(d.keys@, v) ==> !has_root_value(d.keys@, v),
        has_root_value(d.keys@, v) ==> forall|sid: u128| !has_user_value(d.keys@, sid, v),
{
    assert(key_values_unique(d.keys@));
    if has_root_value(d.keys@, v) {
        let i = choose|i: int| 0 <= i < d.keys@.len() && root_value_match(d.keys@[i], v);
        if has_service_value(d.keys@, v) {
            let j = choose|j: int|
                0 <= j < d.keys@.len() && service_value_match(d.keys@[j], v);
            assert(i != j);
            assert(d.keys@[i].value@ != d.keys@[j].value@);
            assert(false);
        }
        assert forall|sid: u128| !has_user_value(d.keys@, sid, v) by {
            if has_user_value(d.keys@, sid, v) {
                let j = choose|j: int|
                    0 <= j < d.keys@.len() && user_value_match(d.keys@[j], sid, v);
                assert(i != j);
                assert(d.keys@[i].value@ != d.keys@[j].value@);
                assert(false);
            }
        }
    }
    if has_service_value(d.keys@, v) && has_root_value(d.keys@, v) {
        assert(false);
    }
}

/// A revoked or disabled key can never authenticate, at any tier: the
/// lookups treat it as absent, so the audit trail reports the value as
/// not found rather than disclosing the key's existence.
pub proof fn lemma_dead_key_never_matches(d: Driver, i: int)
    requires
        d.wf(),
        0 <= i < d.keys@.len(),
        !key_is_live(d.keys@[i]),
    ensures
        !has_root_value(d.keys@, d.keys@[i].value@),
        !has_service_value(d.keys@, d.keys@[i].value@),
        forall|sid: u128| !has_user_value(d.keys@, sid, d.keys@[i].value@),
{
    let v = d.keys@[i].value@;
    assert(key_values_unique(d.keys@));
    if has_root_value(d.keys@, v) {
        let j = choose|j: int| 0 <= j < d.keys@.len() && root_value_match(d.keys@[j], v);
        assert(j == i) by {
            if j != i {
                assert(d.keys@[i].value@ != d.keys@[j].value@);
            }
        }
        assert(false);
    }
    if has_service_value(d.keys@, v) {
        let j = choose|j: int| 0 <= j < d.keys@.len() && service_value_match(d.keys@[j], v);
        assert(j == i) by {
            if j != i {
                assert(d.keys@[i].value@ != d.keys@[j].value@);
            }
        }
        assert(false);
    }
    assert forall|sid: u128| !has_user_value(d.keys@, sid, v) by {
        if has_user_value(d.keys@, sid, v) {
            let j = choose|j: int|
                0 <= j < d.keys@.len() && user_value_match(d.keys@[j], sid, v);
            assert(j == i) by {
                if j != i {
                    assert(d.keys@[i].value@ != d.keys@[j].value@);
                }
            }
            assert(false);
        }
    }
}

/// A rejected credential leaves exactly one trace: when the emitter's
/// insert went through, the trail grew by one record of type
/// `authenticate.error` whose payload names the failure, carrying the
/// request metadata and no principal.
pub proof fn lemma_reject_audit_shape(
    s: Seq<crate::entity::Audit>,
    t: Seq<crate::entity::Audit>,
    meta: AuditMeta,
    message: AuditMessage,
)
    requires
        internal_audit_written(s, t, bare_builder(meta), AuditPath::AuthenticateError, message),
        t != s,
    ensures
        exists|j: int, a: crate::entity::Audit|
            {
                &&& 0 <= j <= s.len()
                &&& t == s.insert(j, a)
                &&& a.type_@ == "authenticate.error"@
                &&& a.data@ == audit_message_data(message)
                &&& a.status_code is None
                &&& a.user_agent == meta.user_agent
                &&& a.remote == meta.remote
                &&& a.key_id is None
                &&& a.service_id is None
                &&& a.user_id is None
            },
{
    let (j, a) = choose|j: int, a: crate::entity::Audit|
        0 <= j <= s.len() && is_internal_audit(
            a,
            bare_builder(meta),
            AuditPath::AuthenticateError,
            message,
        ) && t == s.insert(j, a);
    assert(0 <= j <= s.len() && t == s.insert(j, a) && a.type_@ == "authenticate.error"@
        && a.data@ == audit_message_data(message) && a.status_code is None && a.user_agent
        == meta.user_agent && a.remote == meta.remote && a.key_id is None && a.service_id is None
        && a.user_id is None);
}

/// An OAuth2 `state` is single-use: once consumed — which the
/// callback guarantees of its final store, whatever the outcome — no
/// later presentation of the same `state` can be accepted, at any
/// time and for any provider.
pub proof fn lemma_state_single_use(csrfs: Seq<Csrf>, st: Seq<char>, provider: Seq<char>, now: i64)
    requires
        crate::driver::csrf_key_free(csrfs, st),
    ensures
        !exists|i: int|
            0 <= i < csrfs.len() && csrfs[i].key@ == st && csrf_accepts(
                csrfs[i],
                provider,
                now,
            ),
{
}

/// A masked audit listing is tenant-isolated: every record it returns
/// belongs to the masked tenant.
pub proof fn lemma_audit_list_mask_isolated(
    audits: Seq<crate::entity::Audit>,
    q: crate::audit::AuditListQuery,
    filter: crate::audit::AuditListFilter,
    m: u128,
)
    ensures
        forall|i: int|
            0 <= i < audit_list_spec(audits, q, filter, Some(m)).len() ==> (#[trigger]
            audit_list_spec(audits, q, filter, Some(m))[i]).service_id == Some(m),
{
    let pred = audit_window_pred(filter, Some(m), crate::audit_store::query_le(q),
        crate::audit_store::query_ge(q));
    let w = audits.filter(pred);
    broadcast use vstd::seq_lib::group_filter_ensures;

    assert forall|i: int| 0 <= i < w.len() implies (#[trigger] w[i]).service_id == Some(m) by {
        assert(pred(w[i]));
    }
    let ordered = audit_ordered(audits, q, filter, Some(m));
    assert forall|i: int|
        0 <= i < ordered.len() implies (#[trigger] ordered[i]).service_id == Some(m) by {
        if crate::audit_store::query_desc(q) {
            assert(ordered[i] == w[w.len() - 1 - i]);
        }
    }
    let spec_r = audit_list_spec(audits, q, filter, Some(m));
    assert forall|i: int|
        0 <= i < spec_r.len() implies (#[trigger] spec_r[i]).service_id == Some(m) by {
        let res = crate::audit_store::page_of(
            ordered,
            crate::audit_store::resolved_offset(
                ordered,
                crate::audit_store::query_limit(q),
                crate::audit_store::query_offset_id(q),
            ),
            clamp_limit(crate::audit_store::query_limit(q)),
        );
        assert(forall|k: int| 0 <= k < res.len() ==> (#[trigger] res[k]).service_id == Some(m));
        if crate::audit_store::query_desc(q) {
            assert(spec_r[i] == res[res.len() - 1 - i]);
        }
    }
}

/// The records of the trail that a forward time-window query sees:
/// matching the filter and mask, inside the window, in trail order.
pub open spec fn audit_window(
    audits: Seq<crate::entity::Audit>,
    filter: crate::audit::AuditListFilter,
    mask: Option<u128>,
    le: Option<i64>,
    ge: i64,
) -> Seq<crate::entity::Audit> {
    audits.filter(audit_window_pred(filter, mask, le, Some(ge)))
}

/// The query that resumes a forward listing past a boundary record:
/// the record's creation time becomes the new lower bound, its
/// identifier the boundary, and any upper bound is kept.
pub open spec fn resume_query(
    le: Option<i64>,
    boundary: crate::entity::Audit,
    limit: i64,
) -> crate::audit::AuditListQuery {
    match le {
        Some(le) => crate::audit::AuditListQuery::CreatedLeAndGe(
            le,
            boundary.created_at,
            limit,
            Some(boundary.id),
        ),
        None => crate::audit::AuditListQuery::CreatedGe(
            boundary.created_at,
            limit,
            Some(boundary.id),
        ),
    }
}

/// A weakly time-sorted sequence splits at the bound: a prefix
/// strictly before it, a suffix at or after it.
proof fn lemma_sorted_ca_split(s: Seq<crate::entity::Audit>, t: i64) -> (k: int)
    requires
        forall|i: int, j: int|
            0 <= i < j < s.len() ==> s[i].created_at <= s[j].created_at,
    ensures
        0 <= k <= s.len(),
        forall|i: int| 0 <= i < k ==> s[i].created_at < t,
        forall|i: int| k <= i < s.len() ==> s[i].created_at >= t,
    decreases s.len(),
{
    if s.len() == 0 {
        0
    } else if s[0].created_at >= t {
        assert forall|i: int| 0 <= i < s.len() implies s[i].created_at >= t by {
            if i > 0 {
                assert(s[0].created_at <= s[i].created_at);
            }
        }
        0
    } else {
        let rest = s.subrange(1, s.len() as int);
        assert(forall|i: int, j: int|
            0 <= i < j < rest.len() ==> rest[i].created_at <= rest[j].created_at);
        let k0 = lemma_sorted_ca_split(rest, t);
        assert forall|i: int| 0 <= i < k0 + 1 implies s[i].created_at < t by {
            if i > 0 {
                assert(s[i] == rest[i - 1]);
            }
        }
        assert forall|i: int| k0 + 1 <= i < s.len() implies s[i].created_at >= t by {
            assert(s[i] == rest[i - 1]);
        }
        k0 + 1
    }
}

/// Tightening the lower bound of a forward window keeps a suffix:
/// the records at or after the new bound.
proof fn lemma_window_suffix(
    audits: Seq<crate::entity::Audit>,
    filter: crate::audit::AuditListFilter,
    mask: Option<u128>,
    le0: Option<i64>,
    ge0: i64,
    t: i64,
) -> (k: int)
    requires
        audits_sorted(audits),
        t >= ge0,
    ensures
        ({
            let w = audit_window(audits, filter, mask, le0, ge0);
            &&& 0 <= k <= w.len()
            &&& audit_window(audits, filter, mask, le0, t) == w.skip(k)
            &&& forall|i: int| 0 <= i < k ==> w[i].created_at < t
            &&& forall|i: int| k <= i < w.len() ==> w[i].created_at >= t
        }),
{
    broadcast use vstd::seq_lib::group_filter_ensures;

    let pred0 = audit_window_pred(filter, mask, le0, Some(ge0));
    let pred1 = audit_window_pred(filter, mask, le0, Some(t));
    let w = audits.filter(pred0);
    let w1 = audits.filter(pred1);
    crate::util::lemma_filter_pairwise(
        audits,
        pred0,
        |a: crate::entity::Audit, b: crate::entity::Audit| crate::driver::audit_before(a, b),
    );
    assert(forall|i: int, j: int|
        0 <= i < j < w.len() ==> w[i].created_at <= w[j].created_at);
    let caq = |a: crate::entity::Audit| a.created_at >= t;
    assert forall|x: crate::entity::Audit| #[trigger] pred1(x) == (pred0(x) && caq(x)) by {}
    crate::util::lemma_filter_refine(audits, pred1, pred0, caq);
    assert(w1 == w.filter(caq));
    let k = lemma_sorted_ca_split(w, t);
    assert(w =~= w.take(k) + w.skip(k));
    Seq::<crate::entity::Audit>::filter_distributes_over_add(w.take(k), w.skip(k), caq);
    assert(w.take(k).filter(caq).len() == 0) by {
        assert forall|x: crate::entity::Audit|
            w.take(k).contains(x) implies !caq(x) by {
            let i = choose|i: int| 0 <= i < w.take(k).len() && w.take(k)[i] == x;
            assert(w[i].created_at < t);
        }
        w.take(k).lemma_all_neg_filter_empty(caq);
    }
    assert(w.skip(k).filter(caq) == w.skip(k)) by {
        assert forall|i: int| 0 <= i < w.skip(k).len() implies caq(#[trigger] w.skip(k)[i]) by {
            assert(w.skip(k)[i] == w[k + i]);
        }
        crate::util::lemma_filter_all_pass(w.skip(k), caq);
    }
    assert(w1 =~= w.skip(k));
    k
}

/// Cursor pagination is exhaustive and non-overlapping: resuming a
/// forward listing with the last returned record — its creation time
/// as the new bound, its identifier as the boundary — returns exactly
/// the next page of the window, every record once and in order, with
/// creation-time ties broken by identifier. This needs the run of
/// records sharing the boundary's timestamp before it to fit within
/// one page, as the boundary-row algorithm probes a single page.
#[verifier::rlimit(60)]
pub proof fn lemma_pagination_resumes(
    audits: Seq<crate::entity::Audit>,
    filter: crate::audit::AuditListFilter,
    mask: Option<u128>,
    le0: Option<i64>,
    ge0: i64,
    limit: i64,
    p: int,
)
    requires
        audits_sorted(audits),
        audit_ids_unique(audits),
        clamp_limit(limit) >= 1,
        0 <= p < audit_window(audits, filter, mask, le0, ge0).len(),
        forall|i: int|
            0 <= i <= p && #[trigger] audit_window(audits, filter, mask, le0, ge0)[i].created_at
                == audit_window(audits, filter, mask, le0, ge0)[p].created_at ==> p - i
                <= clamp_limit(limit),
    ensures
        ({
            let w = audit_window(audits, filter, mask, le0, ge0);
            audit_list_spec(audits, resume_query(le0, w[p], limit), filter, mask)
                == crate::audit_store::page_of(w, p + 1, clamp_limit(limit))
        }),
{
    broadcast use vstd::seq_lib::group_filter_ensures;

    let lim = clamp_limit(limit);
    let pred0 = audit_window_pred(filter, mask, le0, Some(ge0));
    let w = audits.filter(pred0);
    let e = w[p];
    let t = e.created_at;
    let pred1 = audit_window_pred(filter, mask, le0, Some(t));
    let w1 = audits.filter(pred1);
    let q2 = resume_query(le0, e, limit);

    crate::util::lemma_filter_pairwise(
        audits,
        pred0,
        |a: crate::entity::Audit, b: crate::entity::Audit| crate::driver::audit_before(a, b),
    );
    crate::util::lemma_filter_pairwise(
        audits,
        pred0,
        |a: crate::entity::Audit, b: crate::entity::Audit| a.id != b.id,
    );
    assert(forall|i: int, j: int|
        0 <= i < j < w.len() ==> w[i].created_at <= w[j].created_at);
    assert(pred0(e));
    assert(t >= ge0);

    let k = lemma_window_suffix(audits, filter, mask, le0, ge0, t);
    assert(w1 == w.skip(k));

    assert(k <= p) by {
        assert(w[p].created_at >= t);
    }
    let pos1 = p - k;
    assert(w1[pos1] == e) by {
        assert(w.skip(k)[pos1] == w[k + pos1]);
    }
    assert(w[k].created_at == t) by {
        assert(w[k].created_at >= t);
        if k < p {
            assert(w[k].created_at <= w[p].created_at);
        }
    }
    assert(pos1 <= lim) by {
        assert(audit_window(audits, filter, mask, le0, ge0)[k].created_at == audit_window(
            audits,
            filter,
            mask,
            le0,
            ge0,
        )[p].created_at);
    }
    let len1 = w1.len() as int;
    assert(len1 == w.len() - k);
    assert(forall|i: int, j: int| 0 <= i < j < len1 ==> w1[i].id != w1[j].id) by {
        assert(forall|i: int| 0 <= i < len1 ==> w1[i] == w[k + i]);
    }

    assert(crate::audit_store::query_le(q2) == le0);
    assert(crate::audit_store::query_ge(q2) == Some(t));
    assert(!crate::audit_store::query_desc(q2));
    assert(audit_ordered(audits, q2, filter, mask) == w1);

    let probe = crate::audit_store::page_of(w1, 1, lim);
    let ghost resolved = crate::audit_store::resolved_offset(w1, limit, Some(e.id));
    if pos1 == 0 {
        assert(forall|x: int|
            0 <= x < probe.len() ==> #[trigger] probe[x].id == w1[1 + x].id);
        assert(!(exists|x: int| 0 <= x < probe.len() && probe[x].id == e.id)) by {
            if exists|x: int| 0 <= x < probe.len() && probe[x].id == e.id {
                let x = choose|x: int| 0 <= x < probe.len() && probe[x].id == e.id;
                assert(w1[1 + x].id != w1[0].id);
                assert(false);
            }
        }
        assert(resolved == 1);
        assert(crate::audit_store::page_of(w1, 1, lim) =~= crate::audit_store::page_of(
            w,
            p + 1,
            lim,
        ));
    } else {
        assert(probe[pos1 - 1] == w1[pos1]);
        assert(probe[pos1 - 1].id == e.id);
        let cp = choose|x: int| 0 <= x < probe.len() && probe[x].id == e.id;
        assert(cp == pos1 - 1) by {
            assert(probe[cp] == w1[1 + cp]);
            if cp != pos1 - 1 {
                assert(w1[1 + cp].id != w1[pos1].id);
                assert(false);
            }
        }
        assert(resolved == pos1 + 1);
        assert(crate::audit_store::page_of(w1, pos1 + 1, lim) =~= crate::audit_store::page_of(
            w,
            p + 1,
            lim,
        ));
    }
    assert(audit_list_spec(audits, q2, filter, mask) == crate::audit_store::page_of(
        w,
        p + 1,
        lim,
    ));
}

/// The query that opens a forward traversal of the window.
pub open spec fn first_query(le: Option<i64>, ge: i64, limit: i64) -> crate::audit::AuditListQuery {
    match le {
        Some(le) => crate::audit::AuditListQuery::CreatedLeAndGe(le, ge, limit, None),
        None => crate::audit::AuditListQuery::CreatedGe(ge, limit, None),
    }
}

/// What a client collects by iterating a listing: the page of each
/// query, resumed through its last record, until a page comes back
/// empty. `fuel` bounds the number of pages considered.
pub open spec fn paginate_from(
    audits: Seq<crate::entity::Audit>,
    filter: crate::audit::AuditListFilter,
    mask: Option<u128>,
    q: crate::audit::AuditListQuery,
    fuel: nat,
) -> Seq<crate::entity::Audit>
    decreases fuel,
{
    if fuel == 0 {
        Seq::empty()
    } else {
        let page = audit_list_spec(audits, q, filter, mask);
        if page.len() == 0 {
            Seq::empty()
        } else {
            page + paginate_from(
                audits,
                filter,
                mask,
                resume_query(
                    crate::audit_store::query_le(q),
                    page.last(),
                    crate::audit_store::query_limit(q),
                ),
                (fuel - 1) as nat,
            )
        }
    }
}

/// Every run of records sharing one creation time fits within one
/// page: what the probe-one-page boundary algorithm needs to resume
/// exactly.
pub open spec fn ties_fit_page(w: Seq<crate::entity::Audit>, limit: i64) -> bool {
    forall|i: int, p: int|
        0 <= i <= p < w.len() && w[i].created_at == w[p].created_at ==> p - i <= clamp_limit(
            limit,
        )
}

/// The traversal from any query whose page starts at position `s` of
/// the window collects exactly the window's records from `s` on.
proof fn lemma_paginate_from_position(
    audits: Seq<crate::entity::Audit>,
    filter: crate::audit::AuditListFilter,
    mask: Option<u128>,
    le0: Option<i64>,
    ge0: i64,
    limit: i64,
    q: crate::audit::AuditListQuery,
    s: int,
    fuel: nat,
)
    requires
        audits_sorted(audits),
        audit_ids_unique(audits),
        clamp_limit(limit) >= 1,
        ties_fit_page(audit_window(audits, filter, mask, le0, ge0), limit),
        0 <= s <= audit_window(audits, filter, mask, le0, ge0).len(),
        audit_list_spec(audits, q, filter, mask) == crate::audit_store::page_of(
            audit_window(audits, filter, mask, le0, ge0),
            s,
            clamp_limit(limit),
        ),
        crate::audit_store::query_le(q) == le0,
        crate::audit_store::query_ge(q) is Some,
        !crate::audit_store::query_desc(q),
        crate::audit_store::query_limit(q) == limit,
        fuel >= audit_window(audits, filter, mask, le0, ge0).len() - s,
    ensures
        paginate_from(audits, filter, mask, q, fuel) == audit_window(
            audits,
            filter,
            mask,
            le0,
            ge0,
        ).skip(s),
    decreases fuel,
{
    let w = audit_window(audits, filter, mask, le0, ge0);
    let n = w.len() as int;
    let lim = clamp_limit(limit);
    let page = audit_list_spec(audits, q, filter, mask);
    if fuel == 0 {
        assert(s == n);
        assert(w.skip(s) =~= Seq::empty());
    } else if page.len() == 0 {
        assert(s == n) by {
            if s < n {
                assert(page.len() == (if s + lim < n {
                    s + lim
                } else {
                    n
                }) - s);
            }
        }
        assert(w.skip(s) =~= Seq::empty());
    } else {
        assert(s < n);
        let p = (if s + lim < n {
            s + lim
        } else {
            n
        }) - 1;
        assert(page =~= w.subrange(s, p + 1));
        assert(page.last() == w[p]);
        lemma_pagination_resumes(audits, filter, mask, le0, ge0, limit, p);
        let q2 = resume_query(le0, w[p], limit);
        assert(audit_list_spec(audits, q2, filter, mask) == crate::audit_store::page_of(
            w,
            p + 1,
            lim,
        ));
        assert(crate::audit_store::query_le(q2) == le0 && crate::audit_store::query_ge(q2)
            is Some && !crate::audit_store::query_desc(q2) && crate::audit_store::query_limit(
            q2,
        ) == limit);
        lemma_paginate_from_position(
            audits,
            filter,
            mask,
            le0,
            ge0,
            limit,
            q2,
            p + 1,
            (fuel - 1) as nat,
        );
        assert(paginate_from(audits, filter, mask, q, fuel) == page + w.skip(p + 1));
        assert(page + w.skip(p + 1) =~= w.skip(s));
    }
}

/// Cursor pagination, iterated to the end, is exhaustive and
/// non-overlapping: starting a forward listing from the window's
/// bound and resuming each page through its last record until a page
/// comes back empty collects every record of the window exactly once,
/// in ascending creation order with ties broken by identifier, and
/// nothing else — the concatenation of the pages is the window
/// itself. The window's runs of equal timestamps must each fit within
/// one page, as the boundary algorithm probes a single page; `fuel`
/// is any bound of at least one page per record.
pub proof fn lemma_pagination_exhaustive(
    audits: Seq<crate::entity::Audit>,
    filter: crate::audit::AuditListFilter,
    mask: Option<u128>,
    le0: Option<i64>,
    ge0: i64,
    limit: i64,
    fuel: nat,
)
    requires
        audits_sorted(audits),
        audit_ids_unique(audits),
        clamp_limit(limit) >= 1,
        ties_fit_page(audit_window(audits, filter, mask, le0, ge0), limit),
        fuel >= audit_window(audits, filter, mask, le0, ge0).len(),
    ensures
        paginate_from(audits, filter, mask, first_query(le0, ge0, limit), fuel) == audit_window(
            audits,
            filter,
            mask,
            le0,
            ge0,
        ),
{
    let w = audit_window(audits, filter, mask, le0, ge0);
    let fq = first_query(le0, ge0, limit);
    let lim = clamp_limit(limit);
    assert(crate::audit_store::query_le(fq) == le0);
    assert(crate::audit_store::query_ge(fq) == Some(ge0));
    assert(!crate::audit_store::query_desc(fq));
    assert(crate::audit_store::query_limit(fq) == limit);
    assert(crate::audit_store::query_offset_id(fq) is None);
    assert(audit_ordered(audits, fq, filter, mask) == w);
    assert(crate::audit_store::resolved_offset(w, limit, None) == 0);
    assert(audit_list_spec(audits, fq, filter, mask) == crate::audit_store::page_of(w, 0, lim));
    lemma_paginate_from_position(audits, filter, mask, le0, ge0, limit, fq, 0, fuel);
    assert(w.skip(0) =~= w);
}

/// Some key of the table carries this identifier and belongs to the
/// tenant.
pub open spec fn key_id_of_tenant(keys: Seq<Key>, id: u128, m: u128) -> bool {
    exists|j: int| 0 <= j < keys.len() && id == keys[j].id && keys[j].service_id == Some(m)
}

/// A masked key listing is tenant-isolated: every identifier it
/// returns names a key bound to the masked tenant — never a root key.
pub proof fn lemma_key_list_mask_isolated(keys: Seq<Key>, gt: u128, m: u128)
    ensures
        forall|i: int|
            0 <= i < crate::driver::key_ids_gt(keys, gt, Some(m)).len() ==> key_id_of_tenant(
                keys,
                #[trigger] crate::driver::key_ids_gt(keys, gt, Some(m))[i],
                m,
            ),
{
    let pred = crate::driver::key_gt_pred(gt, Some(m));
    let w = keys.filter(pred);
    broadcast use vstd::seq_lib::group_filter_ensures;

    assert forall|i: int|
        0 <= i < crate::driver::key_ids_gt(keys, gt, Some(m)).len() implies key_id_of_tenant(
        keys,
        #[trigger] crate::driver::key_ids_gt(keys, gt, Some(m))[i],
        m,
    ) by {
        assert(pred(w[i]));
        assert(key_in_mask(w[i], Some(m)));
        crate::util::lemma_filter_pairwise(keys, pred, |a: Key, b: Key| true);
        assert(keys.contains(w[i]));
        let j = choose|j: int| 0 <= j < keys.len() && keys[j] == w[i];
        assert(crate::driver::key_ids_gt(keys, gt, Some(m))[i] == keys[j].id);
    }
}

} // verus!
