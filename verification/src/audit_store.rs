use vstd::prelude::*;

use crate::audit::AuditCreate;
use crate::audit::AuditList;
use crate::audit::AuditListFilter;
use crate::audit::AuditListQuery;
use crate::audit::AuditRead;
use crate::audit::AuditUpdate;
use crate::driver::Driver;
use crate::driver::audit_before;
use crate::driver::audit_id_free;
use crate::driver::clamp_limit;
use crate::entity::Audit;

use crate::error::DriverError;

verus! {

/// The record is visible under the mask.
pub open spec fn audit_in_mask(a: Audit, mask: Option<u128>) -> bool {
    match mask {
        None => true,
        Some(m) => a.service_id == Some(m),
    }
}

/// The record passes every restriction of the filter and the mask.
/// A restriction on an optional column excludes records where the
/// column is absent.
pub open spec fn audit_matches_filter(a: Audit, filter: AuditListFilter, mask: Option<u128>) -> bool {
    &&& (match filter.id {
        Some(ids) => ids@.contains(a.id),
        None => true,
    })
    &&& (match filter.type_ {
        Some(ts) => exists|i: int| 0 <= i < ts@.len() && ts@[i]@ == a.type_@,
        None => true,
    })
    &&& (match filter.subject {
        Some(ss) => a.subject matches Some(x) && exists|i: int|
            0 <= i < ss@.len() && ss@[i]@ == x@,
        None => true,
    })
    &&& (match filter.service_id {
        Some(xs) => a.service_id matches Some(x) && xs@.contains(x),
        None => true,
    })
    &&& (match filter.user_id {
        Some(xs) => a.user_id matches Some(x) && xs@.contains(x),
        None => true,
    })
    &&& audit_in_mask(a, mask)
}

/// The record lies in the requested time window and passes the filter.
pub open spec fn audit_window_pred(
    filter: AuditListFilter,
    mask: Option<u128>,
    le: Option<i64>,
    ge: Option<i64>,
) -> spec_fn(Audit) -> bool {
    |a: Audit|
        {
            &&& audit_matches_filter(a, filter, mask)
            &&& (match le {
                Some(x) => a.created_at <= x,
                None => true,
            })
            &&& (match ge {
                Some(x) => a.created_at >= x,
                None => true,
            })
        }
}

/// One page: up to `lim` elements of `s` starting at `off`.
pub open spec fn page_of(s: Seq<Audit>, off: int, lim: int) -> Seq<Audit>
    recommends
        0 <= off,
        0 <= lim,
{
    let a = if off < s.len() {
        off
    } else {
        s.len() as int
    };
    let b = if off + lim < s.len() {
        off + lim
    } else {
        s.len() as int
    };
    s.subrange(a, b)
}

/// The page offset that resumes past `offset_id`, as resolved by the
/// boundary-row algorithm: probe with offset one; if the probe page
/// holds the boundary record, skip exactly past its position.
pub open spec fn resolved_offset(ordered: Seq<Audit>, limit: i64, offset_id: Option<u128>) -> int {
    match offset_id {
        None => 0,
        Some(oid) => {
            let probe = page_of(ordered, 1, clamp_limit(limit));
            if exists|p: int| 0 <= p < probe.len() && probe[p].id == oid {
                2 + choose|p: int| 0 <= p < probe.len() && probe[p].id == oid
            } else {
                1
            }
        },
    }
}

pub open spec fn query_le(q: AuditListQuery) -> Option<i64> {
    match q {
        AuditListQuery::CreatedLe(le, _, _) => Some(le),
        AuditListQuery::CreatedGe(_, _, _) => None,
        AuditListQuery::CreatedLeAndGe(le, _, _, _) => Some(le),
    }
}

pub open spec fn query_ge(q: AuditListQuery) -> Option<i64> {
    match q {
        AuditListQuery::CreatedLe(_, _, _) => None,
        AuditListQuery::CreatedGe(ge, _, _) => Some(ge),
        AuditListQuery::CreatedLeAndGe(_, ge, _, _) => Some(ge),
    }
}

pub open spec fn query_limit(q: AuditListQuery) -> i64 {
    match q {
        AuditListQuery::CreatedLe(_, limit, _) => limit,
        AuditListQuery::CreatedGe(_, limit, _) => limit,
        AuditListQuery::CreatedLeAndGe(_, _, limit, _) => limit,
    }
}

pub open spec fn query_offset_id(q: AuditListQuery) -> Option<u128> {
    match q {
        AuditListQuery::CreatedLe(_, _, offset_id) => offset_id,
        AuditListQuery::CreatedGe(_, _, offset_id) => offset_id,
        AuditListQuery::CreatedLeAndGe(_, _, _, offset_id) => offset_id,
    }
}

/// A backwards query works over the reversed window.
pub open spec fn query_desc(q: AuditListQuery) -> bool {
    q is CreatedLe
}

/// The records of the window, in the traversal order of the query.
pub open spec fn audit_ordered(
    audits: Seq<Audit>,
    q: AuditListQuery,
    filter: AuditListFilter,
    mask: Option<u128>,
) -> Seq<Audit> {
    let w = audits.filter(audit_window_pred(filter, mask, query_le(q), query_ge(q)));
    if query_desc(q) {
        w.reverse()
    } else {
        w
    }
}

/// What a list query returns: the resolved page of the ordered window,
/// put back into ascending creation order.
pub open spec fn audit_list_spec(
    audits: Seq<Audit>,
    q: AuditListQuery,
    filter: AuditListFilter,
    mask: Option<u128>,
) -> Seq<Audit> {
    let ordered = audit_ordered(audits, q, filter, mask);
    let res = page_of(
        ordered,
        resolved_offset(ordered, query_limit(q), query_offset_id(q)),
        clamp_limit(query_limit(q)),
    );
    if query_desc(q) {
        res.reverse()
    } else {
        res
    }
}

/// The record carries what a new audit row is made of.
pub open spec fn audit_from_create(a: Audit, id: u128, now: i64, c: AuditCreate) -> bool {
    &&& a.id == id
    &&& a.created_at == now
    &&& a.updated_at == now
    &&& a.user_agent == c.meta.user_agent
    &&& a.remote == c.meta.remote
    &&& a.forwarded == c.meta.forwarded
    &&& a.status_code == c.status_code
    &&& a.type_ == c.type_
    &&& a.subject == c.subject
    &&& (match c.data {
        Some(d) => a.data == d,
        None => a.data@ == "{}"@,
    })
    &&& a.key_id == c.key_id
    &&& a.service_id == c.service_id
    &&& a.user_id == c.user_id
    &&& a.user_key_id == c.user_key_id
}

/// `a` is `a0` with the terminal outcome applied: `status_code` and
/// `subject` are set as given, `data` is replaced (absent payload
/// becomes the empty object), and every other field is kept.
pub open spec fn audit_updated(a0: Audit, a: Audit, now: i64, u: AuditUpdate) -> bool {
    &&& a.created_at == a0.created_at
    &&& a.updated_at == now
    &&& a.id == a0.id
    &&& a.user_agent == a0.user_agent
    &&& a.remote == a0.remote
    &&& a.forwarded == a0.forwarded
    &&& a.type_ == a0.type_
    &&& a.key_id == a0.key_id
    &&& a.service_id == a0.service_id
    &&& a.user_id == a0.user_id
    &&& a.user_key_id == a0.user_key_id
    &&& a.status_code == u.status_code
    &&& a.subject == u.subject
    &&& (match u.data {
        Some(d) => a.data == d,
        None => a.data@ == "{}"@,
    })
}

/// The audit table `t` is `s` with the row `u.id` replaced by `a`.
pub open spec fn audit_row_updated(
    s: Seq<Audit>,
    t: Seq<Audit>,
    a: Audit,
    now: i64,
    u: AuditUpdate,
    mask: Option<u128>,
) -> bool {
    exists|i: int|
        0 <= i < s.len() && s[i].id == u.id && audit_in_mask(s[i], mask) && audit_updated(
            s[i],
            a,
            now,
            u,
        ) && t == s.update(i, a)
}

/// Some visible row has this identifier.
pub open spec fn audit_present_in_mask(s: Seq<Audit>, id: u128, mask: Option<u128>) -> bool {
    exists|i: int| 0 <= i < s.len() && s[i].id == id && audit_in_mask(s[i], mask)
}

/// The record satisfies a point read.
pub open spec fn audit_read_match(a: Audit, id: u128, subject: Option<String>, mask: Option<
    u128,
>) -> bool {
    &&& a.id == id
    &&& (match subject {
        Some(s) => a.subject matches Some(x) && x@ == s@,
        None => true,
    })
    &&& audit_in_mask(a, mask)
}

/// Retention: the rows that survive a deletion of everything created
/// at or before the cutoff.
pub open spec fn audit_keep_after_fn(older_than: i64) -> spec_fn(Audit) -> bool {
    |a: Audit| a.created_at > older_than
}

/// The record is counted by the metrics view: in the time window,
/// visible under the mask, and already carrying an outcome.
pub open spec fn audit_counted(a: Audit, from: i64, mask: Option<u128>) -> bool {
    a.created_at >= from && audit_in_mask(a, mask) && a.status_code is Some
}

pub open spec fn audit_metric_pred(t: Seq<char>, sc: u16, from: i64, mask: Option<u128>) -> spec_fn(
    Audit,
) -> bool {
    |a: Audit| audit_counted(a, from, mask) && a.type_@ == t && a.status_code == Some(sc)
}

/// How many counted records fall under one `(type, status)` label.
pub open spec fn audit_metric_count(
    s: Seq<Audit>,
    t: Seq<char>,
    sc: u16,
    from: i64,
    mask: Option<u128>,
) -> int {
    s.filter(audit_metric_pred(t, sc, from, mask)).len() as int
}

fn vec_u128_contains(v: &Vec<u128>, x: u128) -> (r: bool)
    ensures
        r == v@.contains(x),
{
    let mut i: usize = 0;
    while i < v.len()
        invariant
            i <= v@.len(),
            forall|j: int| 0 <= j < i ==> v@[j] != x,
        decreases v@.len() - i,
    {
        if v[i] == x {
            return true;
        }
        i += 1;
    }
    false
}

fn vec_string_contains(v: &Vec<String>, x: &String) -> (r: bool)
    ensures
        r == exists|i: int| 0 <= i < v@.len() && v@[i]@ == x@,
{
    let mut i: usize = 0;
    while i < v.len()
        invariant
            i <= v@.len(),
            forall|j: int| 0 <= j < i ==> v@[j]@ != x@,
        decreases v@.len() - i,
    {
        if v[i] == *x {
            return true;
        }
        i += 1;
    }
    false
}

/// Evaluate the window predicate on one record.
fn audit_matches_exec(
    a: &Audit,
    filter: &AuditListFilter,
    mask: Option<u128>,
    le: Option<i64>,
    ge: Option<i64>,
) -> (r: bool)
    ensures
        r == audit_window_pred(*filter, mask, le, ge)(*a),
{
    let ok_id = match &filter.id {
        Some(ids) => vec_u128_contains(ids, a.id),
        None => true,
    };
    let ok_type = match &filter.type_ {
        Some(ts) => vec_string_contains(ts, &a.type_),
        None => true,
    };
    let ok_subject = match &filter.subject {
        Some(ss) => match &a.subject {
            Some(x) => vec_string_contains(ss, x),
            None => false,
        },
        None => true,
    };
    let ok_sid = match &filter.service_id {
        Some(xs) => match a.service_id {
            Some(x) => vec_u128_contains(xs, x),
            None => false,
        },
        None => true,
    };
    let ok_uid = match &filter.user_id {
        Some(xs) => match a.user_id {
            Some(x) => vec_u128_contains(xs, x),
            None => false,
        },
        None => true,
    };
    let ok_mask = match mask {
        Some(m) => match a.service_id {
            Some(x) => x == m,
            None => false,
        },
        None => true,
    };
    let ok_le = match le {
        Some(x) => a.created_at <= x,
        None => true,
    };
    let ok_ge = match ge {
        Some(x) => a.created_at >= x,
        None => true,
    };
    ok_id && ok_type && ok_subject && ok_sid && ok_uid && ok_mask && ok_le && ok_ge
}

/// Copy a sequence of records in reverse order.
fn audit_reverse(v: &Vec<Audit>) -> (r: Vec<Audit>)
    ensures
        r@ == v@.reverse(),
{
    let mut r: Vec<Audit> = Vec::new();
    let mut j: usize = v.len();
    while j > 0
        invariant
            j <= v@.len(),
            r@.len() == v@.len() - j,
            forall|i: int| 0 <= i < r@.len() ==> r@[i] == v@[v@.len() - 1 - i],
        decreases j,
    {
        j -= 1;
        r.push(v[j].clone());
    }
    proof {
        assert(r@ =~= v@.reverse());
    }
    r
}

/// Copy one page out of an ordered sequence of records.
fn audit_page(all: &Vec<Audit>, offset: u64, limit: i64) -> (r: Vec<Audit>)
    ensures
        r@ == page_of(all@, offset as int, clamp_limit(limit)),
{
    let len = all.len();
    let start: usize = if offset < (len as u64) {
        offset as usize
    } else {
        len
    };
    let avail: usize = len - start;
    let take_n: usize = if limit <= 0 {
        0
    } else if (limit as u64) < (avail as u64) {
        limit as usize
    } else {
        avail
    };
    let mut r: Vec<Audit> = Vec::new();
    let mut i: usize = 0;
    while i < take_n
        invariant
            i <= take_n,
            start + take_n <= all@.len(),
            all@.len() <= usize::MAX,
            r@ == all@.subrange(start as int, start as int + i),
        decreases take_n - i,
    {
        r.push(all[start + i].clone());
        proof {
            assert(all@.subrange(start as int, start as int + i + 1) =~= all@.subrange(
                start as int,
                start as int + i,
            ).push(all@[start as int + i]));
        }
        i += 1;
    }
    proof {
        assert(r@ =~= page_of(all@, offset as int, clamp_limit(limit)));
    }
    r
}

/// The position of the record with this identifier within a page.
fn audit_find_pos(v: &Vec<Audit>, id: u128) -> (r: Option<usize>)
    ensures
        r matches Some(p) ==> p < v@.len() && v@[p as int].id == id,
        r is None ==> forall|j: int| 0 <= j < v@.len() ==> v@[j].id != id,
{
    let mut i: usize = 0;
    while i < v.len()
        invariant
            i <= v@.len(),
            forall|j: int| 0 <= j < i ==> v@[j].id != id,
        decreases v@.len() - i,
    {
        if v[i].id == id {
            return Some(i);
        }
        i += 1;
    }
    None
}

/// The position of one `(type, status)` label among collected metric
/// rows.
fn metric_find(rows: &Vec<(String, u16, u64)>, t: &String, sc: u16) -> (r: Option<usize>)
    ensures
        r matches Some(p) ==> p < rows@.len() && rows@[p as int].0@ == t@ && rows@[p as int].1
            == sc,
        r is None ==> forall|q: int| 0 <= q < rows@.len() ==> !(rows@[q].0@ == t@ && rows@[q].1
            == sc),
{
    let mut p: usize = 0;
    while p < rows.len()
        invariant
            p <= rows@.len(),
            forall|q: int| 0 <= q < p ==> !(rows@[q].0@ == t@ && rows@[q].1 == sc),
        decreases rows@.len() - p,
    {
        if rows[p].0 == *t && rows[p].1 == sc {
            return Some(p);
        }
        p += 1;
    }
    None
}

impl Driver {
    /// Every record of the window, in table (ascending) order.
    fn audit_collect(
        &self,
        filter: &AuditListFilter,
        mask: Option<u128>,
        le: Option<i64>,
        ge: Option<i64>,
    ) -> (r: Vec<Audit>)
        ensures
            r@ == self.audits@.filter(audit_window_pred(*filter, mask, le, ge)),
    {
        let mut r: Vec<Audit> = Vec::new();
        let mut i: usize = 0;
        while i < self.audits.len()
            invariant
                i <= self.audits@.len(),
                r@ == self.audits@.take(i as int).filter(audit_window_pred(*filter, mask, le, ge)),
            decreases self.audits@.len() - i,
        {
            let ghost pred = audit_window_pred(*filter, mask, le, ge);
            proof {
                crate::util::lemma_filter_take_step(self.audits@, i as int, pred);
            }
            if audit_matches_exec(&self.audits[i], filter, mask, le, ge) {
                r.push(self.audits[i].clone());
            }
            i += 1;
        }
        proof {
            assert(self.audits@.take(self.audits@.len() as int) =~= self.audits@);
        }
        r
    }

    /// One page of the ordered window.
    fn audit_list_window(
        &self,
        filter: &AuditListFilter,
        mask: Option<u128>,
        le: Option<i64>,
        ge: Option<i64>,
        offset: u64,
        limit: i64,
        desc: bool,
    ) -> (r: Vec<Audit>)
        ensures
            r@ == page_of(
                if desc {
                    self.audits@.filter(audit_window_pred(*filter, mask, le, ge)).reverse()
                } else {
                    self.audits@.filter(audit_window_pred(*filter, mask, le, ge))
                },
                offset as int,
                clamp_limit(limit),
            ),
    {
        let all = self.audit_collect(filter, mask, le, ge);
        if desc {
            let rev = audit_reverse(&all);
            audit_page(&rev, offset, limit)
        } else {
            audit_page(&all, offset, limit)
        }
    }

    /// List a page of the audit trail under cursor, filter and mask.
    /// The result is in ascending creation order whatever the cursor
    /// direction; identifier order breaks creation-time ties.
    pub fn audit_list(&self, list: &AuditList, mask: Option<u128>) -> (r: Vec<Audit>)
        requires
            self.wf(),
        ensures
            r@ == audit_list_spec(self.audits@, list.query, list.filter, mask),
    {
        let (le, ge, limit, offset_id, desc): (
            Option<i64>,
            Option<i64>,
            i64,
            Option<u128>,
            bool,
        ) = match list.query {
            AuditListQuery::CreatedLe(le, limit, offset_id) => (
                Some(le),
                None,
                limit,
                offset_id,
                true,
            ),
            AuditListQuery::CreatedGe(ge, limit, offset_id) => (
                None,
                Some(ge),
                limit,
                offset_id,
                false,
            ),
            AuditListQuery::CreatedLeAndGe(le, ge, limit, offset_id) => (
                Some(le),
                Some(ge),
                limit,
                offset_id,
                false,
            ),
        };
        let ghost pred = audit_window_pred(list.filter, mask, le, ge);
        let ghost w = self.audits@.filter(pred);
        let ghost ordered = if desc {
            w.reverse()
        } else {
            w
        };
        proof {
            assert(le == query_le(list.query) && ge == query_ge(list.query));
            assert(limit == query_limit(list.query) && offset_id == query_offset_id(list.query));
            assert(desc == query_desc(list.query));
            assert(ordered == audit_ordered(self.audits@, list.query, list.filter, mask));
            crate::util::lemma_filter_pairwise(
                self.audits@,
                pred,
                |a: Audit, b: Audit| a.id != b.id,
            );
            assert forall|p: int, q: int|
                0 <= p < q < ordered.len() implies ordered[p].id != ordered[q].id by {
                if desc {
                    assert(ordered[p] == w[w.len() - 1 - p]);
                    assert(ordered[q] == w[w.len() - 1 - q]);
                }
            }
        }
        let off0: u64 = if offset_id.is_some() {
            1
        } else {
            0
        };
        let first = self.audit_list_window(&list.filter, mask, le, ge, off0, limit, desc);
        let out: Vec<Audit> = match offset_id {
            None => first,
            Some(oid) => {
                match audit_find_pos(&first, oid) {
                    None => first,
                    Some(p) => {
                        proof {
                            let probe = page_of(ordered, 1, clamp_limit(limit));
                            assert(first@ == probe);
                            assert(probe[p as int].id == oid);
                            let cp = choose|c: int| 0 <= c < probe.len() && probe[c].id == oid;
                            assert forall|x: int, y: int|
                                0 <= x < y < probe.len() implies probe[x].id != probe[y].id by {
                                let a0 = if 1 < ordered.len() {
                                    1
                                } else {
                                    ordered.len() as int
                                };
                                assert(probe[x] == ordered[a0 + x]);
                                assert(probe[y] == ordered[a0 + y]);
                            }
                            assert(cp == p as int);
                            assert(first@.len() <= clamp_limit(limit));
                            assert((p as int) + 2 == resolved_offset(ordered, limit, offset_id));
                        }
                        self.audit_list_window(
                            &list.filter,
                            mask,
                            le,
                            ge,
                            (p as u64) + 2,
                            limit,
                            desc,
                        )
                    },
                }
            },
        };
        if desc {
            let rr = audit_reverse(&out);
            proof {
                assert(rr@ == audit_list_spec(self.audits@, list.query, list.filter, mask));
            }
            rr
        } else {
            proof {
                assert(out@ == audit_list_spec(self.audits@, list.query, list.filter, mask));
            }
            out
        }
    }

    /// Whether some audit row already holds this identifier.
    fn audit_id_taken(&self, id: u128) -> (r: bool)
        ensures
            r == !audit_id_free(self.audits@, id),
    {
        let mut i: usize = 0;
        while i < self.audits.len()
            invariant
                i <= self.audits@.len(),
                forall|j: int| 0 <= j < i ==> self.audits@[j].id != id,
            decreases self.audits@.len() - i,
        {
            if self.audits[i].id == id {
                return true;
            }
            i += 1;
        }
        false
    }

    /// The position at which a record created `now` with this
    /// identifier sorts.
    fn audit_insert_pos(&self, now: i64, id: u128) -> (pos: usize)
        requires
            self.wf(),
        ensures
            pos <= self.audits@.len(),
            forall|j: int|
                0 <= j < pos ==> (self.audits@[j].created_at < now || (self.audits@[j].created_at
                    == now && self.audits@[j].id < id)),
            pos < self.audits@.len() ==> !(self.audits@[pos as int].created_at < now || (
            self.audits@[pos as int].created_at == now && self.audits@[pos as int].id < id)),
    {
        let mut pos: usize = 0;
        while pos < self.audits.len() && (self.audits[pos].created_at < now || (
        self.audits[pos].created_at == now && self.audits[pos].id < id))
            invariant
                pos <= self.audits@.len(),
                forall|j: int|
                    0 <= j < pos ==> (self.audits@[j].created_at < now || (
                    self.audits@[j].created_at == now && self.audits@[j].id < id)),
            decreases self.audits@.len() - pos,
        {
            pos += 1;
        }
        pos
    }

    /// Insert an audit row. Fails with `Conflict` when the identifier
    /// is already taken.
    pub fn audit_create(&mut self, id: u128, now: i64, create: &AuditCreate) -> (r: Result<
        Audit,
        DriverError,
    >)
        requires
            old(self).wf(),
        ensures
            final(self).wf(),
            final(self).services == old(self).services,
            final(self).users == old(self).users,
            final(self).keys == old(self).keys,
            final(self).csrfs == old(self).csrfs,
            r is Ok <==> audit_id_free(old(self).audits@, id),
            r matches Ok(a) ==> audit_from_create(a, id, now, *create) && (exists|j: int|
                0 <= j <= old(self).audits@.len() && final(self).audits@ == old(
                    self,
                ).audits@.insert(j, a)),
            r is Err ==> final(self).audits == old(self).audits && r == Err::<
                Audit,
                DriverError,
            >(DriverError::Conflict),
    {
        if self.audit_id_taken(id) {
            return Err(DriverError::Conflict);
        }
        let pos = self.audit_insert_pos(now, id);
        let a = Audit {
            created_at: now,
            updated_at: now,
            id,
            user_agent: create.meta.user_agent.clone(),
            remote: create.meta.remote.clone(),
            forwarded: crate::entity::clone_opt_string(&create.meta.forwarded),
            status_code: create.status_code,
            type_: create.type_.clone(),
            subject: crate::entity::clone_opt_string(&create.subject),
            data: match &create.data {
                Some(d) => d.clone(),
                None => String::from_str("{}"),
            },
            key_id: create.key_id,
            service_id: create.service_id,
            user_id: create.user_id,
            user_key_id: create.user_key_id,
        };
        let ac = a.clone();
        self.audits.insert(pos, ac);
        proof {
            let s = old(self).audits@;
            let t = self.audits@;
            s.insert_ensures(pos as int, a);
            assert forall|p: int, q: int| 0 <= p < q < t.len() implies audit_before(
                t[p],
                t[q],
            ) by {
                if q == pos {
                    assert(t[p] == s[p]);
                } else if p == pos {
                    assert(t[q] == s[q - 1]);
                    if q - 1 > pos {
                        assert(audit_before(s[pos as int], s[q - 1]));
                    }
                    assert(s[q - 1].id != id);
                } else if q < pos {
                    assert(t[p] == s[p] && t[q] == s[q]);
                } else if p > pos {
                    assert(t[p] == s[p - 1] && t[q] == s[q - 1]);
                } else {
                    assert(t[p] == s[p] && t[q] == s[q - 1]);
                }
            }
            assert forall|p: int, q: int| 0 <= p < q < t.len() implies t[p].id != t[q].id by {
                if q == pos {
                    assert(t[p] == s[p]);
                } else if p == pos {
                    assert(t[q] == s[q - 1]);
                } else if q < pos {
                    assert(t[p] == s[p] && t[q] == s[q]);
                } else if p > pos {
                    assert(t[p] == s[p - 1] && t[q] == s[q - 1]);
                } else {
                    assert(t[p] == s[p] && t[q] == s[q - 1]);
                }
            }
        }
        Ok(a)
    }

    /// Point-read one audit record under the mask.
    pub fn audit_read(&self, read: &AuditRead, mask: Option<u128>) -> (r: Option<Audit>)
        requires
            self.wf(),
        ensures
            r is Some <==> exists|i: int|
                0 <= i < self.audits@.len() && audit_read_match(
                    self.audits@[i],
                    read.id,
                    read.subject,
                    mask,
                ),
            r matches Some(a) ==> audit_read_match(a, read.id, read.subject, mask)
                && self.audits@.contains(a),
    {
        let mut i: usize = 0;
        while i < self.audits.len()
            invariant
                i <= self.audits@.len(),
                forall|j: int|
                    0 <= j < i ==> !audit_read_match(
                        self.audits@[j],
                        read.id,
                        read.subject,
                        mask,
                    ),
            decreases self.audits@.len() - i,
        {
            let a = &self.audits[i];
            let ok_subject = match &read.subject {
                Some(s) => match &a.subject {
                    Some(x) => *x == *s,
                    None => false,
                },
                None => true,
            };
            let ok_mask = match mask {
                Some(m) => match a.service_id {
                    Some(x) => x == m,
                    None => false,
                },
                None => true,
            };
            if a.id == read.id && ok_subject && ok_mask {
                proof {
                    assert(self.audits@.contains(self.audits@[i as int]));
                }
                return Some(a.clone());
            }
            i += 1;
        }
        None
    }

    /// Apply the terminal outcome to one record under the mask. Fails
    /// with `NotFound` when no visible row has the identifier.
    pub fn audit_update(&mut self, now: i64, update: &AuditUpdate, mask: Option<u128>) -> (r:
        Result<Audit, DriverError>)
        requires
            old(self).wf(),
        ensures
            final(self).wf(),
            final(self).services == old(self).services,
            final(self).users == old(self).users,
            final(self).keys == old(self).keys,
            final(self).csrfs == old(self).csrfs,
            r is Ok <==> audit_present_in_mask(old(self).audits@, update.id, mask),
            r matches Ok(a) ==> audit_row_updated(
                old(self).audits@,
                final(self).audits@,
                a,
                now,
                *update,
                mask,
            ),
            r is Err ==> final(self).audits == old(self).audits && r == Err::<
                Audit,
                DriverError,
            >(DriverError::NotFound),
    {
        let mut i: usize = 0;
        while i < self.audits.len()
            invariant
                i <= self.audits@.len(),
                old(self).wf(),
                *self == *old(self),
                forall|j: int|
                    0 <= j < i ==> !(self.audits@[j].id == update.id && audit_in_mask(
                        self.audits@[j],
                        mask,
                    )),
            decreases self.audits@.len() - i,
        {
            let a0 = &self.audits[i];
            let ok_mask = match mask {
                Some(m) => match a0.service_id {
                    Some(x) => x == m,
                    None => false,
                },
                None => true,
            };
            if a0.id == update.id && ok_mask {
                let a = Audit {
                    created_at: a0.created_at,
                    updated_at: now,
                    id: a0.id,
                    user_agent: a0.user_agent.clone(),
                    remote: a0.remote.clone(),
                    forwarded: crate::entity::clone_opt_string(&a0.forwarded),
                    status_code: update.status_code,
                    type_: a0.type_.clone(),
                    subject: crate::entity::clone_opt_string(&update.subject),
                    data: match &update.data {
                        Some(d) => d.clone(),
                        None => String::from_str("{}"),
                    },
                    key_id: a0.key_id,
                    service_id: a0.service_id,
                    user_id: a0.user_id,
                    user_key_id: a0.user_key_id,
                };
                let acl = a.clone();
                self.audits.remove(i);
                self.audits.insert(i, acl);
                proof {
                    let s = old(self).audits@;
                    let t = self.audits@;
                    assert(t =~= s.update(i as int, a));
                    assert(a.created_at == s[i as int].created_at && a.id == s[i as int].id);
                    assert forall|p: int| 0 <= p < t.len() implies t[p].created_at
                        == s[p].created_at && t[p].id == s[p].id by {
                        if p == i {
                            assert(t[p] == a);
                        } else {
                            assert(t[p] == s[p]);
                        }
                    }
                    assert forall|p: int, q: int| 0 <= p < q < t.len() implies (audit_before(
                        t[p],
                        t[q],
                    ) && t[p].id != t[q].id) by {
                        assert(audit_before(s[p], s[q]));
                        assert(s[p].id != s[q].id);
                    }
                    assert(audit_row_updated(s, t, a, now, *update, mask));
                }
                return Ok(a);
            }
            i += 1;
        }
        Err(DriverError::NotFound)
    }

    /// Aggregate the audit trail into metrics counters: one row per
    /// `(type, status)` label pair over the records created at or
    /// after `from`, visible under the mask and already carrying an
    /// outcome. Labels never repeat and every counted record is
    /// represented.
    pub fn audit_read_metrics(&self, from: i64, mask: Option<u128>) -> (r: Vec<
        (String, u16, u64),
    >)
        requires
            self.wf(),
        ensures
            forall|p: int, q: int|
                0 <= p < q < r@.len() ==> !(r@[p].0@ == r@[q].0@ && r@[p].1 == r@[q].1),
            forall|p: int|
                0 <= p < r@.len() ==> (#[trigger] r@[p].2) as int == audit_metric_count(
                    self.audits@,
                    r@[p].0@,
                    r@[p].1,
                    from,
                    mask,
                ) && r@[p].2 >= 1,
            forall|j: int|
                0 <= j < self.audits@.len() && audit_counted(
                    #[trigger] self.audits@[j],
                    from,
                    mask,
                ) ==> exists|p: int|
                    0 <= p < r@.len() && r@[p].0@ == self.audits@[j].type_@ && Some(r@[p].1)
                        == self.audits@[j].status_code,
    {
        let mut r: Vec<(String, u16, u64)> = Vec::new();
        let mut i: usize = 0;
        while i < self.audits.len()
            invariant
                i <= self.audits@.len(),
                forall|p: int, q: int|
                    0 <= p < q < r@.len() ==> !(r@[p].0@ == r@[q].0@ && r@[p].1 == r@[q].1),
                forall|p: int|
                    0 <= p < r@.len() ==> (#[trigger] r@[p].2) as int == self.audits@.take(
                        i as int,
                    ).filter(audit_metric_pred(r@[p].0@, r@[p].1, from, mask)).len() && 1
                        <= r@[p].2 <= i,
                forall|j: int|
                    0 <= j < i && audit_counted(#[trigger] self.audits@[j], from, mask)
                        ==> exists|p: int|
                        0 <= p < r@.len() && r@[p].0@ == self.audits@[j].type_@ && Some(
                            r@[p].1,
                        ) == self.audits@[j].status_code,
            decreases self.audits@.len() - i,
        {
            let a = &self.audits[i];
            let in_mask = match mask {
                Some(m) => match a.service_id {
                    Some(x) => x == m,
                    None => false,
                },
                None => true,
            };
            let sc: Option<u16> = a.status_code;
            match sc {
                Some(code) if a.created_at >= from && in_mask => {
                    proof {
                        assert(audit_counted(self.audits@[i as int], from, mask));
                    }
                    let found = metric_find(&r, &a.type_, code);
                    let ghost r0 = r@;
                    match found {
                        Some(fp) => {
                            let cur = r[fp].2;
                            let t0 = r[fp].0.clone();
                            r.remove(fp);
                            r.insert(fp, (t0, code, cur + 1));
                            proof {
                                assert(r@ =~= r0.update(
                                    fp as int,
                                    (r0[fp as int].0, code, (r0[fp as int].2 + 1) as u64),
                                ));
                                assert(r@[fp as int].0@ == r0[fp as int].0@);
                                assert forall|p2: int|
                                    0 <= p2 < r@.len() implies (#[trigger] r@[p2].2) as int
                                    == self.audits@.take(i as int + 1).filter(
                                    audit_metric_pred(r@[p2].0@, r@[p2].1, from, mask),
                                ).len() && 1 <= r@[p2].2 <= i + 1 by {
                                    let pr = audit_metric_pred(r@[p2].0@, r@[p2].1, from, mask);
                                    crate::util::lemma_filter_take_step(
                                        self.audits@,
                                        i as int,
                                        pr,
                                    );
                                    if p2 == fp {
                                        assert(pr(self.audits@[i as int]));
                                    } else {
                                        assert(r@[p2] == r0[p2]);
                                        assert(!(r@[p2].0@ == r@[fp as int].0@ && r@[p2].1
                                            == r@[fp as int].1));
                                        assert(!pr(self.audits@[i as int]));
                                    }
                                }
                                assert forall|j: int|
                                    0 <= j < i + 1 && audit_counted(
                                        #[trigger] self.audits@[j],
                                        from,
                                        mask,
                                    ) implies exists|p: int|
                                    0 <= p < r@.len() && r@[p].0@ == self.audits@[j].type_@
                                        && Some(r@[p].1) == self.audits@[j].status_code by {
                                    if j < i {
                                        let p = choose|p: int|
                                            0 <= p < r0.len() && r0[p].0@
                                                == self.audits@[j].type_@ && Some(r0[p].1)
                                                == self.audits@[j].status_code;
                                        assert(r@[p].0@ == r0[p].0@ && r@[p].1 == r0[p].1);
                                    } else {
                                        assert(r@[fp as int].0@ == self.audits@[j].type_@
                                            && Some(r@[fp as int].1)
                                            == self.audits@[j].status_code);
                                    }
                                }
                            }
                        },
                        None => {
                            r.push((a.type_.clone(), code, 1));
                            proof {
                                assert forall|p2: int|
                                    0 <= p2 < r@.len() implies (#[trigger] r@[p2].2) as int
                                    == self.audits@.take(i as int + 1).filter(
                                    audit_metric_pred(r@[p2].0@, r@[p2].1, from, mask),
                                ).len() && 1 <= r@[p2].2 <= i + 1 by {
                                    let pr = audit_metric_pred(r@[p2].0@, r@[p2].1, from, mask);
                                    crate::util::lemma_filter_take_step(
                                        self.audits@,
                                        i as int,
                                        pr,
                                    );
                                    if p2 == r@.len() - 1 {
                                        assert(pr(self.audits@[i as int]));
                                        assert forall|j: int|
                                            0 <= j < i implies !pr(
                                            #[trigger] self.audits@[j],
                                        ) by {
                                            if pr(self.audits@[j]) {
                                                assert(audit_counted(
                                                    self.audits@[j],
                                                    from,
                                                    mask,
                                                ));
                                                assert(r@[p2].0@ == a.type_@);
                                                assert(r@[p2].1 == code);
                                                assert(self.audits@[j].type_@ == a.type_@);
                                                assert(self.audits@[j].status_code == Some(
                                                    code,
                                                ));
                                                assert(exists|q: int|
                                                    0 <= q < r0.len() && r0[q].0@
                                                        == self.audits@[j].type_@ && Some(
                                                        r0[q].1,
                                                    ) == self.audits@[j].status_code);
                                                let q = choose|q: int|
                                                    0 <= q < r0.len() && r0[q].0@
                                                        == self.audits@[j].type_@ && Some(
                                                        r0[q].1,
                                                    ) == self.audits@[j].status_code;
                                                assert(r0[q].0@ == a.type_@ && r0[q].1
                                                    == code);
                                                assert(false);
                                            }
                                        }
                                        assert(self.audits@.take(i as int).all(
                                            |x: Audit| !pr(x),
                                        )) by {
                                            assert forall|x: Audit|
                                                self.audits@.take(i as int).contains(
                                                    x,
                                                ) implies !pr(x) by {
                                                let w = choose|w: int|
                                                    0 <= w < self.audits@.take(i as int).len()
                                                        && self.audits@.take(i as int)[w] == x;
                                                assert(self.audits@[w] == x);
                                            }
                                        }
                                        assert(self.audits@.take(i as int).filter(pr).len()
                                            == 0) by {
                                            self.audits@.take(i as int).lemma_all_neg_filter_empty(
                                                pr,
                                            );
                                        }
                                    } else {
                                        assert(r@[p2] == r0[p2]);
                                        assert(!pr(self.audits@[i as int])) by {
                                            if pr(self.audits@[i as int]) {
                                                assert(self.audits@[i as int].type_@
                                                    == a.type_@);
                                                assert(self.audits@[i as int].status_code
                                                    == Some(code));
                                                assert(r0[p2].0@ == a.type_@ && r0[p2].1
                                                    == code);
                                                assert(false);
                                            }
                                        }
                                    }
                                }
                                assert forall|j: int|
                                    0 <= j < i + 1 && audit_counted(
                                        #[trigger] self.audits@[j],
                                        from,
                                        mask,
                                    ) implies exists|p: int|
                                    0 <= p < r@.len() && r@[p].0@ == self.audits@[j].type_@
                                        && Some(r@[p].1) == self.audits@[j].status_code by {
                                    if j < i {
                                        let p = choose|p: int|
                                            0 <= p < r0.len() && r0[p].0@
                                                == self.audits@[j].type_@ && Some(r0[p].1)
                                                == self.audits@[j].status_code;
                                        assert(r@[p].0@ == r0[p].0@ && r@[p].1 == r0[p].1);
                                    } else {
                                        let last = r@.len() - 1;
                                        assert(r@[last].0@ == self.audits@[j].type_@ && Some(
                                            r@[last].1,
                                        ) == self.audits@[j].status_code);
                                    }
                                }
                            }
                        },
                    }
                },
                _ => {
                    proof {
                        assert(!audit_counted(self.audits@[i as int], from, mask));
                        assert forall|p2: int|
                            0 <= p2 < r@.len() implies (#[trigger] r@[p2].2) as int
                            == self.audits@.take(i as int + 1).filter(
                            audit_metric_pred(r@[p2].0@, r@[p2].1, from, mask),
                        ).len() by {
                            let pr = audit_metric_pred(r@[p2].0@, r@[p2].1, from, mask);
                            crate::util::lemma_filter_take_step(self.audits@, i as int, pr);
                            assert(!pr(self.audits@[i as int]));
                        }
                    }
                },
            }
            i += 1;
        }
        proof {
            assert(self.audits@.take(self.audits@.len() as int) =~= self.audits@);
        }
        r
    }

    /// Delete every record created at or before the cutoff; the count
    /// of deleted rows is returned.
    pub fn audit_delete(&mut self, older_than: i64) -> (r: usize)
        requires
            old(self).wf(),
        ensures
            final(self).wf(),
            final(self).services == old(self).services,
            final(self).users == old(self).users,
            final(self).keys == old(self).keys,
            final(self).csrfs == old(self).csrfs,
            final(self).audits@ == old(self).audits@.filter(audit_keep_after_fn(older_than)),
            r as int == old(self).audits@.len() - final(self).audits@.len(),
    {
        let mut out: Vec<Audit> = Vec::new();
        let mut i: usize = 0;
        while i < self.audits.len()
            invariant
                i <= self.audits@.len(),
                out@ == self.audits@.take(i as int).filter(audit_keep_after_fn(older_than)),
                out@.len() <= i,
            decreases self.audits@.len() - i,
        {
            proof {
                crate::util::lemma_filter_take_step(
                    self.audits@,
                    i as int,
                    audit_keep_after_fn(older_than),
                );
                self.audits@.take(i as int + 1).lemma_filter_len(audit_keep_after_fn(older_than));
            }
            if self.audits[i].created_at > older_than {
                out.push(self.audits[i].clone());
            }
            i += 1;
        }
        proof {
            assert(self.audits@.take(self.audits@.len() as int) =~= self.audits@);
        }
        let removed = self.audits.len() - out.len();
        self.audits = out;
        proof {
            let s = old(self).audits@;
            crate::util::lemma_filter_pairwise(
                s,
                audit_keep_after_fn(older_than),
                |a: Audit, b: Audit| audit_before(a, b),
            );
            crate::util::lemma_filter_pairwise(
                s,
                audit_keep_after_fn(older_than),
                |a: Audit, b: Audit| a.id != b.id,
            );
        }
        removed
    }
}

} // verus!
