use vstd::prelude::*;
use crate::credential::CredentialInfo;
use crate::error::ErrorKind;
use crate::store::{CredentialStore, describes_all, selection};
use crate::proof_request::{ProofRequest, effective, effective_interval};
use crate::resolver::{
    ExtraQuery, RequestedCredential, candidates, extra_for, find_extra, resolve_referent,
    resolved, string_seq,
};
use crate::tags::{list_has, string_views};
use crate::verification::{request_key_lists, requested_attr_keys, requested_pred_keys};
use crate::wql::Query;

verus! {

/// The items of an open search that have not been fetched yet.
pub struct Cursor<T> {
    pub remaining: Vec<T>,
    pub total_count: usize,
}

/// How many items a fetch of `count` hands out.
pub open spec fn batch_len(len: nat, count: nat) -> nat {
    if count < len {
        count
    } else {
        len
    }
}

/// What `n` successive fetches of `count` items hand out, concatenated.
pub open spec fn fetched<T>(items: Seq<T>, count: nat, n: nat) -> Seq<T>
    decreases n,
{
    if n == 0 {
        Seq::empty()
    } else {
        let k = batch_len(items.len(), count);
        items.take(k as int) + fetched(items.skip(k as int), count, (n - 1) as nat)
    }
}

/// Successive fetches hand out the items in order: after `n` fetches of
/// `count` items, what came out is the first `n * count` items (all of
/// them once `n * count` reaches their number).
pub proof fn lemma_paging<T>(items: Seq<T>, count: nat, n: nat)
    ensures
        fetched(items, count, n) == items.take(batch_len(items.len(), n * count) as int),
    decreases n,
{
    if n > 0 {
        let k = batch_len(items.len(), count);
        let rest = items.skip(k as int);
        lemma_paging(rest, count, (n - 1) as nat);
        let m = batch_len(rest.len(), ((n - 1) * count) as nat);
        assert(n * count == (n - 1) * count + count) by (nonlinear_arith);
        assert(items.take(k as int) + rest.take(m as int) =~= items.take(
            batch_len(items.len(), n * count) as int,
        ));
    } else {
        assert(items.take(0) =~= Seq::<T>::empty());
    }
}

/// Once `n` fetches of `count` items have asked for at least as many items
/// as there are, what came out, concatenated, is exactly the items: a search
/// pages through the same list that one listing returns.
pub proof fn lemma_paging_complete<T>(items: Seq<T>, count: nat, n: nat)
    requires
        n * count >= items.len(),
    ensures
        fetched(items, count, n) == items,
{
    lemma_paging(items, count, n);
    assert(items.take(items.len() as int) =~= items);
}

impl<T> Cursor<T> {
    pub fn new(items: Vec<T>) -> (r: Cursor<T>)
        ensures
            r.remaining@ == items@,
            r.total_count == items.len(),
    {
        let n = items.len();
        Cursor { remaining: items, total_count: n }
    }

    /// Hands out the next `count` items, or all that are left if fewer.
    pub fn fetch(&mut self, count: usize) -> (r: Vec<T>)
        ensures
            r@ == old(self).remaining@.take(batch_len(old(self).remaining.len() as nat, count as nat) as int),
            final(self).remaining@ == old(self).remaining@.skip(
                batch_len(old(self).remaining.len() as nat, count as nat) as int,
            ),
            final(self).total_count == old(self).total_count,
    {
        let k = if count < self.remaining.len() {
            count
        } else {
            self.remaining.len()
        };
        let mut out = self.remaining.split_off(k);
        std::mem::swap(&mut self.remaining, &mut out);
        out
    }
}

/// An open credential search.
pub struct CredentialSearch {
    pub handle: i32,
    pub cursor: Cursor<CredentialInfo>,
}

/// The cursor of one referent of a proof-request search.
pub struct ReferentCursor {
    pub referent: String,
    pub cursor: Cursor<RequestedCredential>,
}

/// An open proof-request search: one cursor per referent.
pub struct ProofRequestSearch {
    pub handle: i32,
    pub cursors: Vec<ReferentCursor>,
}

/// The open searches of a process, each under its own handle.
pub struct SearchRegistry {
    pub next_handle: i32,
    pub searches: Vec<CredentialSearch>,
    pub proof_searches: Vec<ProofRequestSearch>,
}

pub open spec fn is_open_proof_search(s: Seq<ProofRequestSearch>, h: i32) -> bool {
    exists|i: int| 0 <= i < s.len() && #[trigger] s[i].handle == h
}

pub open spec fn has_cursor(s: ProofRequestSearch, referent: Seq<char>) -> bool {
    exists|j: int| 0 <= j < s.cursors.len() && #[trigger] s.cursors@[j].referent@ == referent
}

/// Every extra query names a referent of the request.
pub open spec fn extras_known(req: ProofRequest, extras: Seq<ExtraQuery>) -> bool {
    forall|i: int|
        0 <= i < extras.len() ==> requested_attr_keys(req).contains(#[trigger] extras[i].referent@)
            || requested_pred_keys(req).contains(extras[i].referent@)
}

/// The cursors of a new proof-request search: one per attribute referent,
/// then one per predicate referent, each over the credentials that can answer it.
pub open spec fn request_cursors(
    cs: Seq<ReferentCursor>,
    store: CredentialStore,
    req: ProofRequest,
    extras: Seq<ExtraQuery>,
) -> bool {
    let na = req.requested_attributes.len();
    &&& cs.len() == na + req.requested_predicates.len()
    &&& forall|i: int|
        0 <= i < na ==> {
            let info = req.requested_attributes@[i];
            &&& (#[trigger] cs[i]).referent@ == info.referent@
            &&& resolved(
                cs[i].cursor.remaining@,
                candidates(
                    store.credentials@,
                    string_seq(info.names@),
                    info.restrictions,
                    extra_for(extras, info.referent@),
                ),
                effective(info.non_revoked, req.non_revoked),
            )
        }
    &&& forall|i: int|
        0 <= i < req.requested_predicates.len() ==> {
            let info = req.requested_predicates@[i];
            &&& (#[trigger] cs[na + i]).referent@ == info.referent@
            &&& resolved(
                cs[na + i].cursor.remaining@,
                candidates(
                    store.credentials@,
                    seq![info.name@],
                    info.restrictions,
                    extra_for(extras, info.referent@),
                ),
                effective(info.non_revoked, req.non_revoked),
            )
        }
}

fn all_extras_known(req: &ProofRequest, extras: &Vec<ExtraQuery>) -> (r: bool)
    ensures
        r == extras_known(*req, extras@),
{
    let (a, p) = request_key_lists(req);
    let mut i: usize = 0;
    while i < extras.len()
        invariant
            i <= extras.len(),
            string_views(a@) == requested_attr_keys(*req),
            string_views(p@) == requested_pred_keys(*req),
            forall|k: int|
                0 <= k < i ==> requested_attr_keys(*req).contains(#[trigger] extras@[k].referent@)
                    || requested_pred_keys(*req).contains(extras@[k].referent@),
        decreases extras.len() - i,
    {
        if !list_has(&a, &extras[i].referent) && !list_has(&p, &extras[i].referent) {
            return false;
        }
        i = i + 1;
    }
    true
}

fn build_request_cursors(store: &CredentialStore, req: &ProofRequest, extras: &Vec<ExtraQuery>) -> (r:
    Vec<ReferentCursor>)
    ensures
        request_cursors(r@, *store, *req, extras@),
{
    let na = req.requested_attributes.len();
    let mut cs: Vec<ReferentCursor> = Vec::new();
    let mut i: usize = 0;
    while i < na
        invariant
            i <= na,
            na == req.requested_attributes.len(),
            cs.len() == i,
            forall|k: int|
                0 <= k < i ==> {
                    let info = req.requested_attributes@[k];
                    &&& (#[trigger] cs@[k]).referent@ == info.referent@
                    &&& resolved(
                        cs@[k].cursor.remaining@,
                        candidates(
                            store.credentials@,
                            string_seq(info.names@),
                            info.restrictions,
                            extra_for(extras@, info.referent@),
                        ),
                        effective(info.non_revoked, req.non_revoked),
                    )
                },
        decreases na - i,
    {
        let info = &req.requested_attributes[i];
        let extra = find_extra(extras, &info.referent);
        let iv = effective_interval(info.non_revoked, req.non_revoked);
        let items = resolve_referent(store, &info.names, &info.restrictions, extra, iv);
        cs.push(ReferentCursor { referent: info.referent.clone(), cursor: Cursor::new(items) });
        i = i + 1;
    }
    let mut i: usize = 0;
    while i < req.requested_predicates.len()
        invariant
            i <= req.requested_predicates.len(),
            na == req.requested_attributes.len(),
            cs.len() == na + i,
            forall|k: int|
                0 <= k < na ==> {
                    let info = req.requested_attributes@[k];
                    &&& (#[trigger] cs@[k]).referent@ == info.referent@
                    &&& resolved(
                        cs@[k].cursor.remaining@,
                        candidates(
                            store.credentials@,
                            string_seq(info.names@),
                            info.restrictions,
                            extra_for(extras@, info.referent@),
                        ),
                        effective(info.non_revoked, req.non_revoked),
                    )
                },
            forall|k: int|
                0 <= k < i ==> {
                    let info = req.requested_predicates@[k];
                    &&& (#[trigger] cs@[na + k]).referent@ == info.referent@
                    &&& resolved(
                        cs@[na + k].cursor.remaining@,
                        candidates(
                            store.credentials@,
                            seq![info.name@],
                            info.restrictions,
                            extra_for(extras@, info.referent@),
                        ),
                        effective(info.non_revoked, req.non_revoked),
                    )
                },
        decreases req.requested_predicates.len() - i,
    {
        let info = &req.requested_predicates[i];
        let extra = find_extra(extras, &info.referent);
        let iv = effective_interval(info.non_revoked, req.non_revoked);
        let mut names: Vec<String> = Vec::new();
        names.push(info.name.clone());
        assert(string_seq(names@) =~= seq![info.name@]);
        let items = resolve_referent(store, &names, &info.restrictions, extra, iv);
        let ghost before = cs@;
        cs.push(ReferentCursor { referent: info.referent.clone(), cursor: Cursor::new(items) });
        assert forall|k: int| 0 <= k < na implies #[trigger] cs@[k] == before[k] by {}
        assert forall|k: int| 0 <= k < i implies #[trigger] cs@[na + k] == before[na + k] by {}
        i = i + 1;
    }
    cs
}

pub open spec fn is_open(s: Seq<CredentialSearch>, h: i32) -> bool {
    exists|i: int| 0 <= i < s.len() && #[trigger] s[i].handle == h
}

fn find_cursor(s: &ProofRequestSearch, referent: &String) -> (r: Option<usize>)
    ensures
        r is None <==> !has_cursor(*s, referent@),
        r matches Some(j) ==> j < s.cursors.len() && s.cursors@[j as int].referent@ == referent@,
{
    let mut j: usize = 0;
    while j < s.cursors.len()
        invariant
            j <= s.cursors.len(),
            forall|k: int| 0 <= k < j ==> #[trigger] s.cursors@[k].referent@ != referent@,
        decreases s.cursors.len() - j,
    {
        if s.cursors[j].referent == *referent {
            return Some(j);
        }
        j = j + 1;
    }
    None
}

impl SearchRegistry {
    /// Handles are positive, unique, and below the next one to be given out.
    pub open spec fn wf(&self) -> bool {
        &&& self.next_handle >= 1
        &&& forall|i: int|
            0 <= i < self.proof_searches.len() ==> 0 < #[trigger] self.proof_searches@[i].handle
                < self.next_handle
        &&& forall|i: int, j: int|
            0 <= i < self.proof_searches.len() && 0 <= j < self.proof_searches.len() && i != j
                ==> #[trigger] self.proof_searches@[i].handle
                != #[trigger] self.proof_searches@[j].handle
        &&& forall|i: int|
            0 <= i < self.searches.len() ==> 0 < #[trigger] self.searches@[i].handle < self.next_handle
        &&& forall|i: int, j: int|
            0 <= i < self.searches.len() && 0 <= j < self.searches.len() && i != j
                ==> #[trigger] self.searches@[i].handle != #[trigger] self.searches@[j].handle
    }

    pub fn new() -> (r: SearchRegistry)
        ensures
            r.wf(),
            r.searches@.len() == 0,
            r.proof_searches@.len() == 0,
    {
        SearchRegistry { next_handle: 1, searches: Vec::new(), proof_searches: Vec::new() }
    }

    fn find(&self, h: i32) -> (r: Option<usize>)
        ensures
            r is None <==> !is_open(self.searches@, h),
            r matches Some(i) ==> i < self.searches.len() && self.searches@[i as int].handle == h,
    {
        let mut i: usize = 0;
        while i < self.searches.len()
            invariant
                i <= self.searches.len(),
                forall|k: int| 0 <= k < i ==> #[trigger] self.searches@[k].handle != h,
            decreases self.searches.len() - i,
        {
            if self.searches[i].handle == h {
                return Some(i);
            }
            i = i + 1;
        }
        None
    }

    /// Opens a search over the credentials whose tags match the query; gives
    /// its handle and the number of matches. Fails with `InvalidState` once
    /// handles are used up.
    pub fn search_credentials(&mut self, store: &CredentialStore, query: &Query) -> (r: Result<
        (i32, usize),
        ErrorKind,
    >)
        requires
            old(self).wf(),
        ensures
            final(self).wf(),
            r is Err <==> old(self).next_handle == i32::MAX,
            r matches Err(e) ==> e == ErrorKind::InvalidState,
            r is Err ==> final(self).searches@ == old(self).searches@,
            final(self).proof_searches@ == old(self).proof_searches@,
            r matches Ok((h, n)) ==> {
                &&& h == old(self).next_handle
                &&& final(self).next_handle == h + 1
                &&& !is_open(old(self).searches@, h)
                &&& !is_open_proof_search(old(self).proof_searches@, h)
                &&& h > 0
                &&& final(self).searches@.drop_last() == old(self).searches@
                &&& final(self).searches@.last().handle == h
                &&& describes_all(
                    final(self).searches@.last().cursor.remaining@,
                    selection(store.credentials@, *query),
                )
                &&& n == final(self).searches@.last().cursor.remaining.len()
            },
    {
        if self.next_handle == i32::MAX {
            return Err(ErrorKind::InvalidState);
        }
        let h = self.next_handle;
        let items = store.get_credentials(query);
        let n = items.len();
        let ghost before = self.searches@;
        self.searches.push(CredentialSearch { handle: h, cursor: Cursor::new(items) });
        self.next_handle = h + 1;
        assert(self.searches@.drop_last() =~= before);
        Ok((h, n))
    }

    /// Hands out the next `count` matches of an open search.
    pub fn fetch_credentials(&mut self, h: i32, count: usize) -> (r: Result<Vec<CredentialInfo>, ErrorKind>)
        requires
            old(self).wf(),
        ensures
            final(self).wf(),
            r is Err <==> !is_open(old(self).searches@, h),
            r matches Err(e) ==> e == ErrorKind::InvalidHandle,
            r is Err ==> final(self).searches@ == old(self).searches@,
            final(self).proof_searches@ == old(self).proof_searches@,
            r matches Ok(batch) ==> exists|i: int|
                0 <= i < old(self).searches.len() && #[trigger] old(self).searches@[i].handle == h && {
                    let rem = old(self).searches@[i].cursor.remaining@;
                    let k = batch_len(rem.len(), count as nat) as int;
                    &&& batch@ == rem.take(k)
                    &&& final(self).searches.len() == old(self).searches.len()
                    &&& final(self).searches@[i].handle == h
                    &&& final(self).searches@[i].cursor.remaining@ == rem.skip(k)
                    &&& forall|j: int|
                        0 <= j < final(self).searches.len() && j != i
                            ==> #[trigger] final(self).searches@[j] == old(self).searches@[j]
                },
    {
        match self.find(h) {
            None => Err(ErrorKind::InvalidHandle),
            Some(i) => {
                let ghost before = self.searches@;
                let batch = self.searches[i].cursor.fetch(count);
                assert forall|a: int, b: int|
                    0 <= a < self.searches.len() && 0 <= b < self.searches.len() && a != b
                        implies #[trigger] self.searches@[a].handle != #[trigger] self.searches@[b].handle by {
                    assert(self.searches@[a].handle == before[a].handle);
                    assert(self.searches@[b].handle == before[b].handle);
                }
                assert forall|a: int| 0 <= a < self.searches.len() implies 0 < #[trigger] self.searches@[a].handle < self.next_handle by {
                    assert(self.searches@[a].handle == before[a].handle);
                }
                Ok(batch)
            },
        }
    }

    /// Closes an open search; its handle is no longer valid.
    pub fn close_credentials_search(&mut self, h: i32) -> (r: Result<(), ErrorKind>)
        requires
            old(self).wf(),
        ensures
            final(self).wf(),
            r is Err <==> !is_open(old(self).searches@, h),
            r matches Err(e) ==> e == ErrorKind::InvalidHandle,
            r is Err ==> final(self).searches@ == old(self).searches@,
            final(self).proof_searches@ == old(self).proof_searches@,
            r is Ok ==> !is_open(final(self).searches@, h) && exists|i: int|
                0 <= i < old(self).searches.len() && #[trigger] old(self).searches@[i].handle == h
                    && final(self).searches@ == old(self).searches@.remove(i),
    {
        match self.find(h) {
            None => Err(ErrorKind::InvalidHandle),
            Some(i) => {
                let ghost before = self.searches@;
                self.searches.remove(i);
                assert forall|k: int| 0 <= k < self.searches.len() implies #[trigger] self.searches@[k].handle != h by {
                    if k < i {
                        assert(self.searches@[k] == before[k]);
                    } else {
                        assert(self.searches@[k] == before[k + 1]);
                    }
                }
                Ok(())
            },
        }
    }

    fn find_proof_search(&self, h: i32) -> (r: Option<usize>)
        ensures
            r is None <==> !is_open_proof_search(self.proof_searches@, h),
            r matches Some(i) ==> i < self.proof_searches.len() && self.proof_searches@[i as int].handle
                == h,
    {
        let mut i: usize = 0;
        while i < self.proof_searches.len()
            invariant
                i <= self.proof_searches.len(),
                forall|k: int| 0 <= k < i ==> #[trigger] self.proof_searches@[k].handle != h,
            decreases self.proof_searches.len() - i,
        {
            if self.proof_searches[i].handle == h {
                return Some(i);
            }
            i = i + 1;
        }
        None
    }

    /// Opens a search over the credentials that can answer each referent of
    /// a proof request, with the caller's extra query for a referent added to
    /// its own. Fails with `InvalidStructure` when an extra query names no
    /// referent of the request, and with `InvalidState` once handles are used up.
    pub fn search_credentials_for_proof_req(
        &mut self,
        store: &CredentialStore,
        req: &ProofRequest,
        extras: &Vec<ExtraQuery>,
    ) -> (r: Result<i32, ErrorKind>)
        requires
            old(self).wf(),
        ensures
            final(self).wf(),
            r is Err <==> !extras_known(*req, extras@) || old(self).next_handle == i32::MAX,
            r matches Err(e) ==> (if !extras_known(*req, extras@) {
                e == ErrorKind::InvalidStructure
            } else {
                e == ErrorKind::InvalidState
            }),
            r is Err ==> final(self).proof_searches@ == old(self).proof_searches@,
            final(self).searches@ == old(self).searches@,
            r matches Ok(h) ==> {
                &&& h == old(self).next_handle
                &&& final(self).next_handle == h + 1
                &&& h > 0
                &&& !is_open(old(self).searches@, h)
                &&& !is_open_proof_search(old(self).proof_searches@, h)
                &&& final(self).proof_searches@.drop_last() == old(self).proof_searches@
                &&& final(self).proof_searches@.last().handle == h
                &&& request_cursors(final(self).proof_searches@.last().cursors@, *store, *req, extras@)
            },
    {
        if !all_extras_known(req, extras) {
            return Err(ErrorKind::InvalidStructure);
        }
        if self.next_handle == i32::MAX {
            return Err(ErrorKind::InvalidState);
        }
        let h = self.next_handle;
        let cursors = build_request_cursors(store, req, extras);
        let ghost before = self.proof_searches@;
        self.proof_searches.push(ProofRequestSearch { handle: h, cursors });
        self.next_handle = h + 1;
        assert(self.proof_searches@.drop_last() =~= before);
        Ok(h)
    }

    /// Hands out the next `count` credentials for one referent of an open
    /// proof-request search; the other referents' cursors stay where they are.
    pub fn fetch_credentials_for_proof_req(&mut self, h: i32, referent: &String, count: usize) -> (r:
        Result<Vec<RequestedCredential>, ErrorKind>)
        requires
            old(self).wf(),
        ensures
            final(self).wf(),
            final(self).searches@ == old(self).searches@,
            !is_open_proof_search(old(self).proof_searches@, h) ==> r == Err::<
                Vec<RequestedCredential>,
                ErrorKind,
            >(ErrorKind::InvalidHandle),
            r matches Err(e) ==> e == ErrorKind::InvalidHandle || e == ErrorKind::InvalidStructure,
            r is Err <==> (!is_open_proof_search(old(self).proof_searches@, h) || exists|i: int|
                0 <= i < old(self).proof_searches.len() && #[trigger] old(self).proof_searches@[i].handle
                    == h && !has_cursor(old(self).proof_searches@[i], referent@)),
            r matches Err(e) ==> (e == ErrorKind::InvalidHandle <==> !is_open_proof_search(old(self).proof_searches@, h)),
            r matches Err(e) ==> (e == ErrorKind::InvalidStructure <==> exists|i: int|
                0 <= i < old(self).proof_searches.len() && #[trigger] old(self).proof_searches@[i].handle
                    == h && !has_cursor(old(self).proof_searches@[i], referent@)),
            r is Err ==> final(self).proof_searches@ == old(self).proof_searches@,
            r matches Ok(batch) ==> exists|i: int, j: int|
                0 <= i < old(self).proof_searches.len() && #[trigger] old(self).proof_searches@[i].handle
                    == h && 0 <= j < old(self).proof_searches@[i].cursors.len()
                    && #[trigger] old(self).proof_searches@[i].cursors@[j].referent@ == referent@ && {
                    let rem = old(self).proof_searches@[i].cursors@[j].cursor.remaining@;
                    let k = batch_len(rem.len(), count as nat) as int;
                    &&& batch@ == rem.take(k)
                    &&& final(self).proof_searches@[i].cursors@[j].cursor.remaining@ == rem.skip(k)
                    &&& final(self).proof_searches@[i].cursors@[j].referent == old(self).proof_searches@[i].cursors@[j].referent
                    &&& final(self).proof_searches.len() == old(self).proof_searches.len()
                    &&& final(self).proof_searches@[i].handle == h
                    &&& final(self).proof_searches@[i].cursors.len() == old(self).proof_searches@[i].cursors.len()
                    &&& forall|b: int|
                        0 <= b < final(self).proof_searches@[i].cursors.len() && b != j
                            ==> #[trigger] final(self).proof_searches@[i].cursors@[b] == old(
                            self).proof_searches@[i].cursors@[b]
                    &&& forall|a: int|
                        0 <= a < final(self).proof_searches.len() && a != i
                            ==> #[trigger] final(self).proof_searches@[a] == old(self).proof_searches@[a]
                },
    {
        let i = match self.find_proof_search(h) {
            None => return Err(ErrorKind::InvalidHandle),
            Some(i) => i,
        };
        let j = match find_cursor(&self.proof_searches[i], referent) {
            Some(j) => j,
            None => {
                proof {
                    assert forall|x: int|
                        0 <= x < self.proof_searches.len() && #[trigger] self.proof_searches@[x].handle
                            == h implies !has_cursor(self.proof_searches@[x], referent@) by {
                        if x != i {
                            assert(self.proof_searches@[x].handle != self.proof_searches@[i as int].handle);
                        }
                    }
                }
                return Err(ErrorKind::InvalidStructure);
            },
        };
        let ghost before = self.proof_searches@;
        let mut search = self.proof_searches.remove(i);
        let ghost cursors_before = search.cursors@;
        let mut rc = search.cursors.remove(j);
        let batch = rc.cursor.fetch(count);
        search.cursors.insert(j, rc);
        assert(search.cursors@ =~= cursors_before.update(j as int, rc));
        self.proof_searches.insert(i, search);
        assert(self.proof_searches@ =~= before.update(i as int, search));
        assert(self.proof_searches@.len() == before.len());
        assert forall|a: int| 0 <= a < self.proof_searches.len() implies #[trigger] self.proof_searches@[a].handle == before[a].handle by {
            if a < i {
                assert(self.proof_searches@[a] == before[a]);
            } else if a > i {
                assert(self.proof_searches@[a] == before[a]);
            }
        }
        assert(self.proof_searches@[i as int].cursors@[j as int] == rc);
        assert(before[i as int].handle == h);
        assert(before[i as int].cursors@[j as int].referent@ == referent@);
        Ok(batch)
    }

    /// Closes an open proof-request search with all its cursors.
    pub fn close_credentials_search_for_proof_req(&mut self, h: i32) -> (r: Result<(), ErrorKind>)
        requires
            old(self).wf(),
        ensures
            final(self).wf(),
            final(self).searches@ == old(self).searches@,
            r is Err <==> !is_open_proof_search(old(self).proof_searches@, h),
            r matches Err(e) ==> e == ErrorKind::InvalidHandle,
            r is Err ==> final(self).proof_searches@ == old(self).proof_searches@,
            r is Ok ==> !is_open_proof_search(final(self).proof_searches@, h) && exists|i: int|
                0 <= i < old(self).proof_searches.len() && #[trigger] old(self).proof_searches@[i].handle
                    == h && final(self).proof_searches@ == old(self).proof_searches@.remove(i),
    {
        match self.find_proof_search(h) {
            None => Err(ErrorKind::InvalidHandle),
            Some(i) => {
                let ghost before = self.proof_searches@;
                self.proof_searches.remove(i);
                assert forall|k: int| 0 <= k < self.proof_searches.len() implies #[trigger] self.proof_searches@[k].handle != h by {
                    if k < i {
                        assert(self.proof_searches@[k] == before[k]);
                    } else {
                        assert(self.proof_searches@[k] == before[k + 1]);
                    }
                }
                Ok(())
            },
        }
    }
}

} // verus!
