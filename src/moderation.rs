use vstd::prelude::*;

use crate::entities::{Id, ModeratedTag, Organization};
use crate::error::{Error, ParameterError};
use crate::tags::{lemma_minus_contains, minus, tags_diff};
use crate::text::{insert_sorted, strictly_sorted, strs};

verus! {

/// Whether `org` is exempt from the policy `p`: it owns `p` and moderates `p`'s label itself.
pub open spec fn is_exempt(p: (Id, ModeratedTag), org: Option<Organization>) -> bool {
    match org {
        Some(o) => p.0@ == o.id@ && exists|j: int|
            0 <= j < o.moderated_tags@.len() && (#[trigger] o.moderated_tags@[j]).label@
                == p.1.label@,
        None => false,
    }
}

/// Whether `p`, not exempt for `org`, vetoes adding (or, with `adding` false, removing) `tag`.
pub open spec fn vetoes(
    p: (Id, ModeratedTag),
    org: Option<Organization>,
    tag: Seq<char>,
    adding: bool,
) -> bool {
    &&& !is_exempt(p, org)
    &&& p.1.label@ == tag
    &&& !(if adding {
        p.1.allows_add
    } else {
        p.1.allows_remove
    })
}

/// Whether `p`, not exempt for `org`, asks its owner to approve a change of `tag`.
pub open spec fn asks_approval(p: (Id, ModeratedTag), org: Option<Organization>, tag: Seq<char>) -> bool {
    !is_exempt(p, org) && p.1.label@ == tag && p.1.requires_authorization
}

/// Whether some policy vetoes the change of some tag of `tags`.
pub open spec fn vetoed(
    pol: Seq<(Id, ModeratedTag)>,
    org: Option<Organization>,
    tags: Seq<Seq<char>>,
    adding: bool,
) -> bool {
    exists|a: int, k: int|
        0 <= a < tags.len() && 0 <= k < pol.len() && vetoes(
            #[trigger] pol[k],
            org,
            #[trigger] tags[a],
            adding,
        )
}

/// The organizations that must approve the change of some tag of `tags`.
pub open spec fn approvers(
    pol: Seq<(Id, ModeratedTag)>,
    org: Option<Organization>,
    tags: Seq<Seq<char>>,
) -> Set<Seq<char>> {
    Set::new(
        |id: Seq<char>|
            exists|a: int, k: int|
                0 <= a < tags.len() && 0 <= k < pol.len() && asks_approval(
                    #[trigger] pol[k],
                    org,
                    #[trigger] tags[a],
                ) && pol[k].0@ == id,
    )
}

/// The outcome of changing the tags `old` into `new` under the policies `pol`: a veto, or
/// the set of organizations that must approve.
pub open spec fn moderation_outcome(
    pol: Seq<(Id, ModeratedTag)>,
    org: Option<Organization>,
    old: Seq<Seq<char>>,
    new: Seq<Seq<char>>,
) -> Option<Set<Seq<char>>> {
    let added = minus(new, old);
    let removed = minus(old, new);
    if vetoed(pol, org, added, true) || vetoed(pol, org, removed, false) {
        None
    } else {
        Some(approvers(pol, org, added).union(approvers(pol, org, removed)))
    }
}

/// Whether `r` carries out `outcome`: the veto error, or the approvers in ascending order.
pub open spec fn decides(r: Result<Vec<Id>, Error>, outcome: Option<Set<Seq<char>>>) -> bool {
    match outcome {
        None => r == Err::<Vec<Id>, Error>(Error::Parameter(ParameterError::ModeratedTag)),
        Some(ids) => r is Ok && strictly_sorted(strs(r->Ok_0@)) && strs(r->Ok_0@).to_set()
            == ids,
    }
}

pub open spec fn opt_org(org: Option<&Organization>) -> Option<Organization> {
    if org is Some {
        Some(*org->0)
    } else {
        None
    }
}

fn exempt(p: &(Id, ModeratedTag), org: Option<&Organization>) -> (r: bool)
    ensures
        r == is_exempt(*p, opt_org(org)),
{
    match org {
        None => false,
        Some(o) => {
            if p.0 != o.id {
                return false;
            }
            let mut j: usize = 0;
            while j < o.moderated_tags.len()
                invariant
                    j <= o.moderated_tags@.len(),
                    org == Some(o),
                    p.0@ == o.id@,
                    forall|x: int| 0 <= x < j ==> (#[trigger] o.moderated_tags@[x]).label@ != p.1.label@,
                decreases o.moderated_tags@.len() - j,
            {
                if o.moderated_tags[j].label == p.1.label {
                    assert(opt_org(org) == Some(*o));
                    assert((o.moderated_tags@[j as int]).label@ == p.1.label@);
                    return true;
                }
                j = j + 1;
            }
            assert(opt_org(org) == Some(*o));
            false
        },
    }
}

/// Checks the changes of `tags` against the policies in force (`in_force[k]` tells whether
/// `pol[k]` applies) and adds the approvers to `ids`; false on a veto.
fn scan_changes(
    pol: &[(Id, ModeratedTag)],
    in_force: &Vec<bool>,
    org: Ghost<Option<Organization>>,
    tags: &Vec<String>,
    adding: bool,
    ids: &mut Vec<String>,
) -> (r: bool)
    requires
        in_force@.len() == pol@.len(),
        forall|k: int| 0 <= k < pol@.len() ==> in_force@[k] == !is_exempt(#[trigger] pol@[k], org@),
        strictly_sorted(strs(old(ids)@)),
    ensures
        r == !vetoed(pol@, org@, strs(tags@), adding),
        r ==> strictly_sorted(strs(final(ids)@)) && strs(final(ids)@).to_set() == strs(
            old(ids)@,
        ).to_set().union(approvers(pol@, org@, strs(tags@))),
{
    let ghost ts = strs(tags@);
    let ghost start = strs(ids@).to_set();
    let mut a: usize = 0;
    while a < tags.len()
        invariant
            in_force@.len() == pol@.len(),
            forall|k: int| 0 <= k < pol@.len() ==> in_force@[k] == !is_exempt(#[trigger] pol@[k], org@),
            ts == strs(tags@),
            a <= tags@.len(),
            strictly_sorted(strs(ids@)),
            forall|x: int, k: int|
                0 <= x < a && 0 <= k < pol@.len() ==> !vetoes(#[trigger] pol@[k], org@, #[trigger] ts[x], adding),
            strs(ids@).to_set() == start.union(approvers(pol@, org@, ts.take(a as int))),
        decreases tags@.len() - a,
    {
        let mut k: usize = 0;
        let ghost tag = ts[a as int];
        let ghost done = approvers(pol@, org@, ts.take(a as int));
        assert(tag == tags@[a as int]@);
        while k < pol.len()
            invariant
                in_force@.len() == pol@.len(),
                forall|k: int| 0 <= k < pol@.len() ==> in_force@[k] == !is_exempt(#[trigger] pol@[k], org@),
                ts == strs(tags@),
                a < tags@.len(),
                tag == ts[a as int],
                k <= pol@.len(),
                strictly_sorted(strs(ids@)),
                forall|x: int, k: int|
                    0 <= x < a && 0 <= k < pol@.len() ==> !vetoes(#[trigger] pol@[k], org@, #[trigger] ts[x], adding),
                forall|q: int| 0 <= q < k ==> !vetoes(#[trigger] pol@[q], org@, tag, adding),
                strs(ids@).to_set() == start.union(done).union(Set::new(
                    |id: Seq<char>|
                        exists|q: int|
                            0 <= q < k && asks_approval(#[trigger] pol@[q], org@, tag) && pol@[q].0@ == id,
                )),
            decreases pol@.len() - k,
        {
            let ghost prev = strs(ids@).to_set();
            let ghost seen = Set::new(
                |id: Seq<char>|
                    exists|q: int|
                        0 <= q < k && asks_approval(#[trigger] pol@[q], org@, tag) && pol@[q].0@ == id,
            );
            let ghost seen2 = Set::new(
                |id: Seq<char>|
                    exists|q: int|
                        0 <= q < k + 1 && asks_approval(#[trigger] pol@[q], org@, tag) && pol@[q].0@ == id,
            );
            let (pid, p) = &pol[k];
            if in_force[k] && p.label == tags[a] {
                let allowed = if adding {
                    p.allows_add
                } else {
                    p.allows_remove
                };
                if !allowed {
                    assert(vetoes(pol@[k as int], org@, ts[a as int], adding));
                    return false;
                }
                if p.requires_authorization {
                    insert_sorted(ids, pid.clone());
                    assert(seen2 =~= seen.insert(pid@)) by {
                        assert(asks_approval(pol@[k as int], org@, tag));
                    }
                } else {
                    assert(seen2 =~= seen);
                }
            } else {
                assert(seen2 =~= seen);
            }
            assert(strs(ids@).to_set() =~= start.union(done).union(seen2));
            k = k + 1;
        }
        assert(approvers(pol@, org@, ts.take(a + 1)) =~= done.union(Set::new(
            |id: Seq<char>|
                exists|q: int|
                    0 <= q < pol@.len() && asks_approval(#[trigger] pol@[q], org@, tag) && pol@[q].0@ == id,
        ))) by {
            let t1 = ts.take(a + 1);
            assert forall|id: Seq<char>| approvers(pol@, org@, t1).contains(id) implies done.union(Set::new(
            |id: Seq<char>|
                exists|q: int|
                    0 <= q < pol@.len() && asks_approval(#[trigger] pol@[q], org@, tag) && pol@[q].0@ == id,
            )).contains(id) by {
                let (x, q) = choose|x: int, q: int|
                    0 <= x < t1.len() && 0 <= q < pol@.len() && asks_approval(
                        #[trigger] pol@[q],
                        org@,
                        #[trigger] t1[x],
                    ) && pol@[q].0@ == id;
                if x < a {
                    assert(ts.take(a as int)[x] == t1[x]);
                }
            }
            assert forall|id: Seq<char>| done.contains(id) implies approvers(pol@, org@, t1).contains(id) by {
                let t0 = ts.take(a as int);
                let (x, q) = choose|x: int, q: int|
                    0 <= x < t0.len() && 0 <= q < pol@.len() && asks_approval(
                        #[trigger] pol@[q],
                        org@,
                        #[trigger] t0[x],
                    ) && pol@[q].0@ == id;
                assert(t1[x] == t0[x]);
            }
            assert forall|id: Seq<char>| (exists|q: int|
                    0 <= q < pol@.len() && asks_approval(#[trigger] pol@[q], org@, tag) && pol@[q].0@ == id)
                implies approvers(pol@, org@, t1).contains(id) by {
                let q = choose|q: int|
                    0 <= q < pol@.len() && asks_approval(#[trigger] pol@[q], org@, tag) && pol@[q].0@ == id;
                assert(t1[a as int] == tag);
            }
        }
        a = a + 1;
    }
    assert(ts.take(tags@.len() as int) == ts);
    true
}

/// Decides whether changing the tags `old` into `new` is permitted under the moderation
/// policies `policies` (each with the id of the organization that holds it). `org`, where
/// given, is exempt from its own policies on the labels it moderates, not from those of
/// others. Returns the ascending ids of the organizations that must approve the change, or
/// a `ModeratedTag` error where a policy forbids it.
pub fn moderation_decision(
    policies: &[(Id, ModeratedTag)],
    old: &[String],
    new: &[String],
    org: Option<&Organization>,
) -> (r: Result<Vec<Id>, Error>)
    ensures
        decides(r, moderation_outcome(policies@, opt_org(org), strs(old@), strs(new@))),
{
    let ghost o = opt_org(org);
    let mut in_force: Vec<bool> = Vec::new();
    let mut k: usize = 0;
    while k < policies.len()
        invariant
            k <= policies@.len(),
            o == opt_org(org),
            in_force@.len() == k,
            forall|q: int| 0 <= q < k ==> in_force@[q] == !is_exempt(#[trigger] policies@[q], o),
        decreases policies@.len() - k,
    {
        let e = exempt(&policies[k], org);
        in_force.push(!e);
        assert(in_force@[k as int] == !is_exempt(policies@[k as int], o));
        k = k + 1;
    }
    let diff = tags_diff(old, new);
    let mut ids: Vec<String> = Vec::new();
    assert(strictly_sorted(strs(ids@)));
    let ghost empty = strs(ids@).to_set();
    assert(empty =~= Set::empty());
    if !scan_changes(policies, &in_force, Ghost(o), &diff.added, true, &mut ids) {
        return Err(Error::Parameter(ParameterError::ModeratedTag));
    }
    let ghost mid = strs(ids@).to_set();
    if !scan_changes(policies, &in_force, Ghost(o), &diff.deleted, false, &mut ids) {
        return Err(Error::Parameter(ParameterError::ModeratedTag));
    }
    assert(strs(ids@).to_set() =~= approvers(policies@, o, strs(diff.added@)).union(
        approvers(policies@, o, strs(diff.deleted@)),
    ));
    Ok(ids)
}

/// Adding a tag that a policy in force forbids to add fails, whatever else the change holds.
pub proof fn lemma_forbidden_add_fails(
    pol: Seq<(Id, ModeratedTag)>,
    org: Option<Organization>,
    old: Seq<Seq<char>>,
    new: Seq<Seq<char>>,
    k: int,
)
    requires
        0 <= k < pol.len(),
        !pol[k].1.allows_add,
        !is_exempt(pol[k], org),
        new.contains(pol[k].1.label@),
        !old.contains(pol[k].1.label@),
    ensures
        moderation_outcome(pol, org, old, new) is None,
{
    let t = pol[k].1.label@;
    lemma_minus_contains(new, old, t);
    let added = minus(new, old);
    let a = choose|a: int| 0 <= a < added.len() && added[a] == t;
    assert(vetoes(pol[k], org, added[a], true));
}

/// A change that touches no moderated tag succeeds, and no organization has to approve it.
pub proof fn lemma_unmoderated_change_succeeds(
    pol: Seq<(Id, ModeratedTag)>,
    org: Option<Organization>,
    old: Seq<Seq<char>>,
    new: Seq<Seq<char>>,
)
    requires
        forall|k: int|
            0 <= k < pol.len() ==> !minus(new, old).contains((#[trigger] pol[k]).1.label@)
                && !minus(old, new).contains(pol[k].1.label@),
    ensures
        moderation_outcome(pol, org, old, new) == Some(Set::<Seq<char>>::empty()),
{
    let added = minus(new, old);
    let removed = minus(old, new);
    assert forall|a: int, k: int| 0 <= a < added.len() && 0 <= k < pol.len() implies !vetoes(
        #[trigger] pol[k],
        org,
        #[trigger] added[a],
        true,
    ) && !asks_approval(pol[k], org, added[a]) by {
        assert(added.contains(added[a]));
    }
    assert forall|a: int, k: int| 0 <= a < removed.len() && 0 <= k < pol.len() implies !vetoes(
        #[trigger] pol[k],
        org,
        #[trigger] removed[a],
        false,
    ) && !asks_approval(pol[k], org, removed[a]) by {
        assert(removed.contains(removed[a]));
    }
    assert(approvers(pol, org, added).union(approvers(pol, org, removed)) =~= Set::empty());
}

/// An organization is exempt only from its own policies: a policy that another organization
/// holds on the same label still vetoes the change, or still asks for that organization's
/// approval.
pub proof fn lemma_exemption_is_own_only(
    pol: Seq<(Id, ModeratedTag)>,
    o: Organization,
    old: Seq<Seq<char>>,
    new: Seq<Seq<char>>,
    k: int,
)
    requires
        0 <= k < pol.len(),
        pol[k].0@ != o.id@,
        new.contains(pol[k].1.label@),
        !old.contains(pol[k].1.label@),
    ensures
        !pol[k].1.allows_add ==> moderation_outcome(pol, Some(o), old, new) is None,
        pol[k].1.requires_authorization ==> (moderation_outcome(pol, Some(o), old, new) matches Some(
            ids,
        ) ==> ids.contains(pol[k].0@)),
{
    let t = pol[k].1.label@;
    assert(!is_exempt(pol[k], Some(o)));
    if !pol[k].1.allows_add {
        lemma_forbidden_add_fails(pol, Some(o), old, new, k);
    }
    lemma_minus_contains(new, old, t);
    let added = minus(new, old);
    let a = choose|a: int| 0 <= a < added.len() && added[a] == t;
    if pol[k].1.requires_authorization {
        assert(asks_approval(pol[k], Some(o), added[a]));
        assert(approvers(pol, Some(o), added).contains(pol[k].0@));
    }
}

} // verus!
