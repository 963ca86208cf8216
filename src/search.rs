use vstd::prelude::*;

use crate::entities::{Event, Id, User};
use crate::error::{Error, ParameterError, RepoError};
use crate::ports::{Db, IdIndex};
use crate::query::{
    effective_limit, is_plan_for, opt_view, plan_event_search, EventQuery,
    IndexQuery, SearchPlan, HALO_EXTENSION_PERCENT,
};
use crate::text::strs;

verus! {

/// `s` with `e` inserted after every element that starts no later than `e`.
pub open spec fn insert_by_start(s: Seq<Event>, e: Event) -> Seq<Event>
    decreases s.len(),
{
    if s.len() == 0 {
        seq![e]
    } else if s.last().start <= e.start {
        s.push(e)
    } else {
        insert_by_start(s.drop_last(), e).push(s.last())
    }
}

/// `s` in chronological order of start; events that start together keep their order.
pub open spec fn sort_by_start(s: Seq<Event>) -> Seq<Event>
    decreases s.len(),
{
    if s.len() == 0 {
        seq![]
    } else {
        insert_by_start(sort_by_start(s.drop_last()), s.last())
    }
}

pub open spec fn chronological(s: Seq<Event>) -> bool {
    forall|i: int, j: int| 0 <= i <= j < s.len() ==> (#[trigger] s[i]).start <= (#[trigger] s[j]).start
}

/// Whether `e` names `email` as its creator.
pub open spec fn created_by(e: Event, email: Seq<char>) -> bool {
    e.created_by matches Some(c) && c@ == email
}

/// The events of `s` that `email` created, in order.
pub open spec fn events_created_by(s: Seq<Event>, email: Seq<char>) -> Seq<Event>
    decreases s.len(),
{
    if s.len() == 0 {
        seq![]
    } else if created_by(s.last(), email) {
        events_created_by(s.drop_last(), email).push(s.last())
    } else {
        events_created_by(s.drop_last(), email)
    }
}

/// The events that the creator filter keeps: none where the creator has no account.
pub open spec fn creator_filtered(s: Seq<Event>, account: Option<User>) -> Seq<Event> {
    match account {
        Some(u) => events_created_by(s, u.email@),
        None => seq![],
    }
}

proof fn lemma_insert_at(s: Seq<Event>, e: Event, j: int)
    requires
        0 <= j <= s.len(),
        j == 0 || s[j - 1].start <= e.start,
        forall|m: int| j <= m < s.len() ==> (#[trigger] s[m]).start > e.start,
    ensures
        insert_by_start(s, e) == s.insert(j, e),
    decreases s.len(),
{
    if s.len() == 0 {
        assert(s.insert(j, e) =~= seq![e]);
    } else if j == s.len() {
        assert(s.insert(j, e) =~= s.push(e));
    } else {
        assert(s.last().start > e.start);
        lemma_insert_at(s.drop_last(), e, j);
        assert(s.drop_last().insert(j, e).push(s.last()) =~= s.insert(j, e));
    }
}

pub proof fn lemma_insert_chronological(s: Seq<Event>, e: Event)
    requires
        chronological(s),
    ensures
        chronological(insert_by_start(s, e)),
        insert_by_start(s, e).len() == s.len() + 1,
    decreases s.len(),
{
    if s.len() > 0 && s.last().start > e.start {
        lemma_insert_chronological(s.drop_last(), e);
        let r = insert_by_start(s.drop_last(), e);
        let t = r.push(s.last());
        assert forall|i: int, j: int| 0 <= i <= j < t.len() implies (#[trigger] t[i]).start
            <= (#[trigger] t[j]).start by {
            if j == t.len() - 1 && i < j {
                // every element of r is an element of s.drop_last() or e
                lemma_insert_members(s.drop_last(), e, i);
            }
        }
    }
}

proof fn lemma_insert_members(s: Seq<Event>, e: Event, i: int)
    requires
        0 <= i < insert_by_start(s, e).len(),
        insert_by_start(s, e).len() == s.len() + 1,
    ensures
        insert_by_start(s, e)[i] == e || exists|m: int|
            0 <= m < s.len() && #[trigger] s[m] == insert_by_start(s, e)[i],
    decreases s.len(),
{
    if s.len() > 0 && s.last().start > e.start {
        let r = insert_by_start(s.drop_last(), e);
        lemma_insert_chronological_len(s.drop_last(), e);
        if i < r.len() {
            lemma_insert_members(s.drop_last(), e, i);
            if r[i] != e {
                let m = choose|m: int| 0 <= m < s.drop_last().len() && #[trigger] s.drop_last()[m] == r[i];
                assert(s[m] == r[i]);
            }
        } else {
            assert(s[s.len() - 1] == insert_by_start(s, e)[i]);
        }
    } else if s.len() > 0 {
        if i < s.len() {
            assert(s[i] == insert_by_start(s, e)[i]);
        }
    }
}

proof fn lemma_insert_chronological_len(s: Seq<Event>, e: Event)
    ensures
        insert_by_start(s, e).len() == s.len() + 1,
    decreases s.len(),
{
    if s.len() > 0 && s.last().start > e.start {
        lemma_insert_chronological_len(s.drop_last(), e);
    }
}

/// A sorted sequence is chronological and as long as the input.
pub proof fn lemma_sort_chronological(s: Seq<Event>)
    ensures
        chronological(sort_by_start(s)),
        sort_by_start(s).len() == s.len(),
    decreases s.len(),
{
    if s.len() > 0 {
        lemma_sort_chronological(s.drop_last());
        lemma_insert_chronological(sort_by_start(s.drop_last()), s.last());
    }
}

proof fn lemma_insert_multiset(s: Seq<Event>, e: Event)
    ensures
        insert_by_start(s, e).to_multiset() == s.to_multiset().insert(e),
    decreases s.len(),
{
    broadcast use vstd::seq_lib::group_to_multiset_ensures;

    if s.len() > 0 && s.last().start > e.start {
        let p = s.drop_last();
        lemma_insert_multiset(p, e);
        assert(p.push(s.last()) == s);
        assert(insert_by_start(s, e).to_multiset() =~= s.to_multiset().insert(e));
    }
}

/// Sorting keeps every event, as often as it occurs: the result is a permutation.
pub proof fn lemma_sort_permutation(s: Seq<Event>)
    ensures
        sort_by_start(s).to_multiset() == s.to_multiset(),
    decreases s.len(),
{
    broadcast use vstd::seq_lib::group_to_multiset_ensures;

    if s.len() > 0 {
        let p = s.drop_last();
        lemma_sort_permutation(p);
        lemma_insert_multiset(sort_by_start(p), s.last());
        assert(p.push(s.last()) == s);
    } else {
        assert(s.to_multiset() =~= vstd::multiset::Multiset::empty());
        assert(sort_by_start(s).to_multiset() =~= vstd::multiset::Multiset::empty());
    }
}

/// The final step of a search drops and adds nothing: where no creator is named, the result
/// holds exactly the events that storage resolved, each as often, in chronological order.
pub proof fn lemma_search_result_keeps_found(found: Seq<Event>)
    ensures
        sort_by_start(found).to_multiset() == found.to_multiset(),
        sort_by_start(found).len() == found.len(),
        chronological(sort_by_start(found)),
{
    lemma_sort_permutation(found);
    lemma_sort_chronological(found);
}

/// Whether two index queries ask the same thing.
pub open spec fn same_index_query(a: IndexQuery, b: IndexQuery) -> bool {
    &&& a.include_bbox == b.include_bbox
    &&& a.exclude_bbox == b.exclude_bbox
    &&& strs(a.categories@) == strs(b.categories@)
    &&& strs(a.hash_tags@) == strs(b.hash_tags@)
    &&& strs(a.text_tags@) == strs(b.text_tags@)
    &&& opt_view(a.text) == opt_view(b.text)
    &&& a.ts_min_lb == b.ts_min_lb
    &&& a.ts_min_ub == b.ts_min_ub
}

/// Sorting a chronological sequence leaves it as it is.
pub proof fn lemma_sort_chronological_fixed(s: Seq<Event>)
    requires
        chronological(s),
    ensures
        sort_by_start(s) == s,
    decreases s.len(),
{
    if s.len() > 0 {
        let p = s.drop_last();
        assert(chronological(p));
        lemma_sort_chronological_fixed(p);
        if p.len() > 0 {
            assert(p.last().start <= s.last().start);
        } else {
            assert(seq![s.last()] =~= s);
        }
        assert(p.push(s.last()) == s);
    }
}

/// Repeating a search request over unchanged data gives the same result: the plan, and so
/// every query handed to the index with its limit, is determined by the request; the final
/// ordering is a function of the events found; and ordering a result again changes nothing.
pub proof fn lemma_search_repeatable(q: EventQuery, p1: SearchPlan, p2: SearchPlan, percent: int, events: Seq<Event>)
    requires
        is_plan_for(p1, q, percent),
        is_plan_for(p2, q, percent),
    ensures
        p1 is All <==> p2 is All,
        p1 matches SearchPlan::Indexed { visible: v1, halo: h1, limit: l1 } ==> (
        p2 matches SearchPlan::Indexed { visible: v2, halo: h2, limit: l2 } && l1 == l2
            && same_index_query(v1, v2) && (h1 is Some <==> h2 is Some) && (h1 is Some
            ==> same_index_query(h1->0, h2->0))),
        sort_by_start(sort_by_start(events)) == sort_by_start(events),
{
    lemma_sort_chronological(events);
    lemma_sort_chronological_fixed(sort_by_start(events));
}

/// Sorts events by start time; events that start together keep their order.
pub fn sort_events_by_start(events: Vec<Event>) -> (r: Vec<Event>)
    ensures
        r@ == sort_by_start(events@),
        chronological(r@),
        r@.len() == events@.len(),
{
    let ghost orig = events@;
    let n = events.len();
    let mut rest = events;
    let mut out: Vec<Event> = Vec::new();
    let mut k: usize = 0;
    assert(orig.skip(0) == orig);
    while rest.len() > 0
        invariant
            k <= orig.len(),
            n == orig.len(),
            k + rest@.len() == orig.len(),
            rest@ == orig.skip(k as int),
            out@ == sort_by_start(orig.take(k as int)),
        decreases rest@.len(),
    {
        let e = rest.remove(0);
        assert(orig.take(k + 1).drop_last() == orig.take(k as int));
        assert(orig.take(k + 1).last() == e);
        assert(rest@ == orig.skip(k + 1));
        let mut j: usize = out.len();
        while j > 0 && out[j - 1].start > e.start
            invariant
                j <= out@.len(),
                forall|m: int| j <= m < out@.len() ==> (#[trigger] out@[m]).start > e.start,
            decreases j,
        {
            j = j - 1;
        }
        proof {
            lemma_insert_at(out@, e, j as int);
        }
        out.insert(j, e);
        k = k + 1;
    }
    assert(orig.take(orig.len() as int) == orig);
    proof {
        lemma_sort_chronological(orig);
    }
    out
}

/// Keeps the events that `account` created; none where there is no account.
pub fn filter_by_creator(events: Vec<Event>, account: Option<&User>) -> (r: Vec<Event>)
    ensures
        r@ == creator_filtered(
            events@,
            match account {
                Some(u) => Some(*u),
                None => None,
            },
        ),
{
    match account {
        None => Vec::new(),
        Some(u) => {
            let ghost orig = events@;
            let n = events.len();
            let mut rest = events;
            let mut out: Vec<Event> = Vec::new();
            let mut k: usize = 0;
            assert(orig.skip(0) == orig);
            while rest.len() > 0
                invariant
                    k <= orig.len(),
                    n == orig.len(),
                    k + rest@.len() == orig.len(),
                    rest@ == orig.skip(k as int),
                    out@ == events_created_by(orig.take(k as int), u.email@),
                decreases rest@.len(),
            {
                let e = rest.remove(0);
                assert(orig.take(k + 1).drop_last() == orig.take(k as int));
                assert(orig.take(k + 1).last() == e);
                assert(rest@ == orig.skip(k + 1));
                let keep = match &e.created_by {
                    Some(c) => *c == u.email,
                    None => false,
                };
                if keep {
                    out.push(e);
                }
                k = k + 1;
            }
            assert(orig.take(orig.len() as int) == orig);
            out
        },
    }
}

/// The capacity that the viewport results leave for the halo query: what remains of
/// `limit` after `visible_count` results, or none where nothing remains.
pub fn halo_capacity(visible_count: usize, limit: usize) -> (r: Option<usize>)
    ensures
        r == if visible_count < limit {
            Some((limit - visible_count) as usize)
        } else {
            None::<usize>
        },
{
    if visible_count < limit {
        Some(limit - visible_count)
    } else {
        None
    }
}

fn repo(e: RepoError) -> (r: Error)
    ensures
        r == Error::Repo(e),
{
    Error::Repo(e)
}

/// The error for a failed lookup of the organization that an API token names: an unknown
/// token is unauthorized; other storage failures pass through.
pub fn token_lookup_error(e: RepoError) -> (r: Error)
    ensures
        r == if e is NotFound {
            Error::Parameter(ParameterError::Unauthorized)
        } else {
            Error::Repo(e)
        },
{
    match e {
        RepoError::NotFound => Error::Parameter(ParameterError::Unauthorized),
        _ => Error::Repo(e),
    }
}

/// Decides the second index call after the viewport query returned `visible_count` ids:
/// the halo query, with what remains of `limit`, where the plan has a halo query (that is,
/// a bounding box was given) and the viewport results left capacity; else none.
pub fn halo_request(halo: Option<IndexQuery>, visible_count: usize, limit: usize) -> (r: Option<
    (IndexQuery, usize),
>)
    ensures
        r is Some <==> (halo is Some && visible_count < limit),
        r matches Some(req) ==> req.0 == halo->0 && req.1 == limit - visible_count,
{
    match halo {
        Some(h) => match halo_capacity(visible_count, limit) {
            Some(rest) => Some((h, rest)),
            None => None,
        },
        None => None,
    }
}

/// The ids handed to storage: the viewport ids, then the halo ids where the halo query ran.
pub fn ids_to_resolve(visible: Vec<Id>, halo: Option<Vec<Id>>) -> (r: Vec<Id>)
    ensures
        r@ == match halo {
            Some(h) => visible@ + h@,
            None => visible@,
        },
{
    let mut ids = visible;
    if let Some(h) = halo {
        let mut more = h;
        ids.append(&mut more);
    }
    ids
}

/// The ids handed to storage hold no more than the limit where the viewport query returned at
/// most `limit` ids and the halo query at most the capacity that `halo_request` gave it.
pub proof fn lemma_ids_within_limit(visible: Seq<Id>, halo: Seq<Id>, limit: int)
    requires
        visible.len() <= limit,
        visible.len() < limit ==> halo.len() <= limit - visible.len(),
        visible.len() == limit ==> halo.len() == 0,
    ensures
        (visible + halo).len() <= limit,
{
}

/// Searches events as `query_events` does, with the halo region extending the viewport by
/// `halo_percent` of its span on each side.
pub fn search_events<D: Db, X: IdIndex>(
    db: &D,
    index: &X,
    query: EventQuery,
    token: Option<String>,
    halo_percent: u16,
) -> (r: Result<Vec<Event>, Error>)
    ensures
        search_outcome(query, token, r),
{
    if query.is_empty() {
        return match db.all_events_chronologically() {
            Ok(events) => Ok(events),
            Err(e) => Err(repo(e)),
        };
    }
    if let Some(t) = &token {
        if let Err(e) = db.get_org_by_api_token(t.as_str()) {
            return Err(token_lookup_error(e));
        }
    }
    let (visible, halo, limit) = match plan_event_search(&query, halo_percent) {
        Err(e) => return Err(e),
        Ok(SearchPlan::All) => {
            return match db.all_events_chronologically() {
                Ok(events) => Ok(events),
                Err(e) => Err(repo(e)),
            };
        },
        Ok(SearchPlan::Indexed { visible, halo, limit }) => (visible, halo, limit),
    };
    let visible_ids: Vec<Id> = match index.query_ids(&visible, limit) {
        Ok(ids) => ids,
        Err(e) => return Err(Error::Repo(RepoError::Other(e.message))),
    };
    let halo_ids = match halo_request(halo, visible_ids.len(), limit) {
        Some((h, rest)) => match index.query_ids(&h, rest) {
            Ok(more) => Some(more),
            Err(e) => return Err(Error::Repo(RepoError::Other(e.message))),
        },
        None => None,
    };
    let ids = ids_to_resolve(visible_ids, halo_ids);
    let mut events = match db.get_events(ids.as_slice()) {
        Ok(events) => events,
        Err(e) => return Err(repo(e)),
    };
    let ghost found = events@;
    if let Some(email) = &query.created_by {
        let account = match db.try_get_user_by_email(email.as_str()) {
            Ok(account) => account,
            Err(e) => return Err(repo(e)),
        };
        events = filter_by_creator(events, account.as_ref());
        assert(events@ == creator_filtered(found, account));
    }
    Ok(sort_events_by_start(events))
}

/// What holds of a search's result whatever storage and the index return: a request
/// without criteria fails only with a storage error; otherwise the only parameter errors
/// are a zero limit and an unknown token, a zero limit fails where no token is given, and a
/// result is the events found, filtered by creator where one is named, in chronological
/// order.
pub open spec fn search_outcome(query: EventQuery, token: Option<String>, r: Result<Vec<Event>, Error>) -> bool {
    &&& query.spec_is_empty() ==> (r matches Err(e) ==> e is Repo)
    &&& r matches Err(Error::Parameter(p)) ==> (p == ParameterError::InvalidLimit
        && !query.spec_is_empty() && effective_limit(query.limit) is Err) || (p
        == ParameterError::Unauthorized && token is Some)
    &&& !query.spec_is_empty() && token is None && effective_limit(query.limit) is Err ==> r
        == Err::<Vec<Event>, Error>(Error::Parameter(ParameterError::InvalidLimit))
    &&& r is Ok && !query.spec_is_empty() ==> chronological(r->Ok_0@)
    &&& r is Ok && !query.spec_is_empty() && query.created_by is None ==> exists|found: Seq<Event>|
        r->Ok_0@ == sort_by_start(found)
    &&& r is Ok && !query.spec_is_empty() && query.created_by is Some ==> exists|
        found: Seq<Event>,
        account: Option<User>,
    | r->Ok_0@ == sort_by_start(creator_filtered(found, account))
}

/// Searches events. A request without criteria returns all events in chronological order,
/// unindexed. Otherwise the viewport query runs first with the effective limit; where a
/// bounding box is given and the viewport left capacity, the halo query (see
/// `HALO_EXTENSION_PERCENT`) runs for what remains (`halo_request`). The viewport ids, then
/// the halo ids (`ids_to_resolve`), are resolved, filtered by creator where one is named (an
/// unknown creator matches nothing), and sorted by start time. An API token, where given,
/// must name an organization.
pub fn query_events<D: Db, X: IdIndex>(
    db: &D,
    index: &X,
    query: EventQuery,
    token: Option<String>,
) -> (r: Result<Vec<Event>, Error>)
    ensures
        search_outcome(query, token, r),
{
    search_events(db, index, query, token, HALO_EXTENSION_PERCENT)
}

} // verus!
