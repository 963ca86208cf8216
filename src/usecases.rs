use vstd::prelude::*;

use crate::entities::{
    BboxSubscription, Comment, Event, Id, MapBbox, MapPoint, Organization, Place, Rating,
    RatingContext, RatingValue, ReviewStatus, Role, User, RATING_VALUE_MAX, RATING_VALUE_MIN,
};
use crate::error::{Error, ParameterError, RepoError};
use crate::moderation::{decides, moderation_decision, moderation_outcome, opt_org};
use crate::ports::Db;
use crate::tags::{canonical_tags, prepare_tag_list, views_of_strs};
use crate::text::{strictly_sorted, strs};

verus! {

fn repo(e: RepoError) -> (r: Error)
    ensures
        r == Error::Repo(e),
{
    Error::Repo(e)
}

/// Loads the ratings with the given ids, each with its comments.
pub fn load_ratings_with_comments<D: Db>(db: &D, rating_ids: &[&str]) -> (r: Result<
    Vec<(Rating, Vec<Comment>)>,
    Error,
>)
    ensures
        r matches Err(e) ==> e is Repo,
{
    let ratings = match db.load_ratings(rating_ids) {
        Ok(ratings) => ratings,
        Err(e) => return Err(repo(e)),
    };
    match db.zip_ratings_with_comments(ratings) {
        Ok(results) => Ok(results),
        Err(e) => Err(repo(e)),
    }
}

/// The account of `requested_email`, which only its own user may read.
pub fn get_user<D: Db>(db: &D, logged_in_email: &str, requested_email: &str) -> (r: Result<
    User,
    Error,
>)
    ensures
        logged_in_email@ != requested_email@ ==> r == Err::<User, Error>(
            Error::Parameter(ParameterError::Forbidden),
        ),
        logged_in_email@ == requested_email@ ==> (r matches Err(e) ==> e is Repo),
{
    if !str_eq(logged_in_email, requested_email) {
        return Err(Error::Parameter(ParameterError::Forbidden));
    }
    match db.get_user_by_email(requested_email) {
        Ok(u) => Ok(u),
        Err(e) => Err(repo(e)),
    }
}

/// Whether two strings hold the same characters.
pub fn str_eq(a: &str, b: &str) -> (r: bool)
    ensures
        r == (a@ == b@),
{
    let n = a.unicode_len();
    if n != b.unicode_len() {
        return false;
    }
    let mut i: usize = 0;
    while i < n
        invariant
            n == a@.len(),
            n == b@.len(),
            i <= n,
            a@.take(i as int) == b@.take(i as int),
        decreases n - i,
    {
        if a.get_char(i) != b.get_char(i) {
            return false;
        }
        assert(a@.take(i + 1) == a@.take(i as int).push(a@[i as int]));
        assert(b@.take(i + 1) == b@.take(i as int).push(b@[i as int]));
        i = i + 1;
    }
    assert(a@.take(n as int) == a@ && b@.take(n as int) == b@);
    true
}

pub fn get_event<D: Db>(db: &D, id: &str) -> (r: Result<Event, Error>)
    ensures
        r matches Err(e) ==> e is Repo,
{
    match db.get_event(id) {
        Ok(e) => Ok(e),
        Err(e) => Err(repo(e)),
    }
}

/// Deletes the account of `email`, which only its own user may do.
pub fn delete_user<D: Db>(db: &D, login_email: &str, email: &str) -> (r: Result<(), Error>)
    ensures
        login_email@ != email@ ==> r == Err::<(), Error>(
            Error::Parameter(ParameterError::Forbidden),
        ),
        login_email@ == email@ ==> (r matches Err(e) ==> e is Repo),
{
    if !str_eq(login_email, email) {
        return Err(Error::Parameter(ParameterError::Forbidden));
    }
    match db.delete_user_by_email(email) {
        Ok(()) => Ok(()),
        Err(e) => Err(repo(e)),
    }
}

/// Replaces the subscriptions of `user_email` by one to `bbox`, under the new id `id`.
/// An invalid box is rejected.
pub fn subscribe_to_bbox<D: Db>(db: &D, id: Id, user_email: String, bbox: MapBbox) -> (r: Result<
    (),
    Error,
>)
    ensures
        !bbox.is_valid() <==> r == Err::<(), Error>(Error::Parameter(ParameterError::Bbox)),
        bbox.is_valid() ==> (r matches Err(e) ==> e is Repo),
{
    if !bbox.is_valid_bbox() {
        return Err(Error::Parameter(ParameterError::Bbox));
    }
    if let Err(e) = unsubscribe_all_bboxes(db, user_email.as_str()) {
        return Err(e);
    }
    match db.create_bbox_subscription(&BboxSubscription { id, user_email, bbox }) {
        Ok(()) => Ok(()),
        Err(e) => Err(repo(e)),
    }
}

pub fn unsubscribe_all_bboxes<D: Db>(db: &D, user_email: &str) -> (r: Result<(), Error>)
    ensures
        r matches Err(e) ==> e is Repo,
{
    match db.delete_bbox_subscriptions_by_email(user_email) {
        Ok(()) => Ok(()),
        Err(e) => Err(repo(e)),
    }
}

/// The subscriptions of `s` that belong to `email`, in order.
pub open spec fn subscriptions_of(s: Seq<BboxSubscription>, email: Seq<char>) -> Seq<
    BboxSubscription,
>
    decreases s.len(),
{
    if s.len() == 0 {
        seq![]
    } else if s.last().user_email@ == email {
        subscriptions_of(s.drop_last(), email).push(s.last())
    } else {
        subscriptions_of(s.drop_last(), email)
    }
}

/// The subscriptions of `s` whose box contains `pos`, in order.
pub open spec fn subscriptions_at(s: Seq<BboxSubscription>, pos: MapPoint) -> Seq<
    BboxSubscription,
>
    decreases s.len(),
{
    if s.len() == 0 {
        seq![]
    } else if s.last().bbox.spec_contains(pos) {
        subscriptions_at(s.drop_last(), pos).push(s.last())
    } else {
        subscriptions_at(s.drop_last(), pos)
    }
}

/// Keeps the subscriptions of `email`.
pub fn filter_subscriptions_by_email(subs: Vec<BboxSubscription>, email: &str) -> (r: Vec<
    BboxSubscription,
>)
    ensures
        r@ == subscriptions_of(subs@, email@),
{
    let ghost orig = subs@;
    let n = subs.len();
    let mut rest = subs;
    let mut out: Vec<BboxSubscription> = Vec::new();
    let mut k: usize = 0;
    assert(orig.skip(0) == orig);
    while rest.len() > 0
        invariant
            n == orig.len(),
            k + rest@.len() == orig.len(),
            rest@ == orig.skip(k as int),
            out@ == subscriptions_of(orig.take(k as int), email@),
        decreases rest@.len(),
    {
        let s = rest.remove(0);
        assert(orig.take(k + 1).drop_last() == orig.take(k as int));
        assert(orig.take(k + 1).last() == s);
        assert(rest@ == orig.skip(k + 1));
        if str_eq(s.user_email.as_str(), email) {
            out.push(s);
        }
        k = k + 1;
    }
    assert(orig.take(orig.len() as int) == orig);
    out
}

/// Keeps the subscriptions whose box contains `pos`.
pub fn filter_subscriptions_by_position(subs: Vec<BboxSubscription>, pos: MapPoint) -> (r: Vec<
    BboxSubscription,
>)
    ensures
        r@ == subscriptions_at(subs@, pos),
{
    let ghost orig = subs@;
    let n = subs.len();
    let mut rest = subs;
    let mut out: Vec<BboxSubscription> = Vec::new();
    let mut k: usize = 0;
    assert(orig.skip(0) == orig);
    while rest.len() > 0
        invariant
            n == orig.len(),
            k + rest@.len() == orig.len(),
            rest@ == orig.skip(k as int),
            out@ == subscriptions_at(orig.take(k as int), pos),
        decreases rest@.len(),
    {
        let s = rest.remove(0);
        assert(orig.take(k + 1).drop_last() == orig.take(k as int));
        assert(orig.take(k + 1).last() == s);
        assert(rest@ == orig.skip(k + 1));
        if s.bbox.contains_point(pos) {
            out.push(s);
        }
        k = k + 1;
    }
    assert(orig.take(orig.len() as int) == orig);
    out
}

/// The subscriptions of `user_email`.
pub fn get_bbox_subscriptions<D: Db>(db: &D, user_email: &str) -> (r: Result<
    Vec<BboxSubscription>,
    Error,
>)
    ensures
        r matches Err(e) ==> e is Repo,
        r matches Ok(subs) ==> exists|all: Seq<BboxSubscription>|
            subs@ == subscriptions_of(all, user_email@),
{
    match db.all_bbox_subscriptions() {
        Ok(all) => Ok(filter_subscriptions_by_email(all, user_email)),
        Err(e) => Err(repo(e)),
    }
}

/// The subscriptions whose box contains `pos`.
pub fn bbox_subscriptions_by_coordinate<D: Db>(db: &D, pos: MapPoint) -> (r: Result<
    Vec<BboxSubscription>,
    Error,
>)
    ensures
        r matches Err(e) ==> e is Repo,
        r matches Ok(subs) ==> exists|all: Seq<BboxSubscription>|
            subs@ == subscriptions_at(all, pos),
{
    match db.all_bbox_subscriptions() {
        Ok(all) => Ok(filter_subscriptions_by_position(all, pos)),
        Err(e) => Err(repo(e)),
    }
}

/// The email addresses of the subscriptions, in order.
pub fn subscription_emails(subs: Vec<BboxSubscription>) -> (r: Vec<String>)
    ensures
        strs(r@) == subs@.map_values(|s: BboxSubscription| s.user_email@),
{
    let ghost orig = subs@;
    let n = subs.len();
    let mut rest = subs;
    let mut out: Vec<String> = Vec::new();
    let mut k: usize = 0;
    assert(orig.skip(0) == orig);
    while rest.len() > 0
        invariant
            n == orig.len(),
            k + rest@.len() == orig.len(),
            rest@ == orig.skip(k as int),
            strs(out@) == orig.take(k as int).map_values(|s: BboxSubscription| s.user_email@),
        decreases rest@.len(),
    {
        let s = rest.remove(0);
        assert(orig[k as int] == s);
        assert(rest@ == orig.skip(k + 1));
        let ghost before = strs(out@);
        out.push(s.user_email);
        assert(strs(out@) == before.push(s.user_email@));
        assert(orig.take(k + 1).map_values(|s: BboxSubscription| s.user_email@) =~= orig.take(
            k as int,
        ).map_values(|s: BboxSubscription| s.user_email@).push(s.user_email@));
        k = k + 1;
    }
    assert(orig.take(orig.len() as int) == orig);
    out
}

/// The email addresses of the users subscribed to a box that contains `pos`.
pub fn email_addresses_by_coordinate<D: Db>(db: &D, pos: MapPoint) -> (r: Result<
    Vec<String>,
    Error,
>)
    ensures
        r matches Err(e) ==> e is Repo,
        r matches Ok(emails) ==> exists|all: Seq<BboxSubscription>|
            strs(emails@) == subscriptions_at(all, pos).map_values(
                |s: BboxSubscription| s.user_email@,
            ),
{
    match bbox_subscriptions_by_coordinate(db, pos) {
        Ok(subs) => Ok(subscription_emails(subs)),
        Err(e) => Err(e),
    }
}

/// The account, where there is one and its role reaches `min_required_role`; else the
/// request is unauthorized.
pub fn check_role(account: Option<User>, min_required_role: Role) -> (r: Result<User, Error>)
    ensures
        match account {
            Some(u) => if u.role.rank() >= min_required_role.rank() {
                r == Ok::<User, Error>(u)
            } else {
                r == Err::<User, Error>(Error::Parameter(ParameterError::Unauthorized))
            },
            None => r == Err::<User, Error>(Error::Parameter(ParameterError::Unauthorized)),
        },
{
    match account {
        Some(u) => {
            if u.role.level() >= min_required_role.level() {
                Ok(u)
            } else {
                Err(Error::Parameter(ParameterError::Unauthorized))
            }
        },
        None => Err(Error::Parameter(ParameterError::Unauthorized)),
    }
}

/// The account of `user_email`, where its role reaches `min_required_role`.
pub fn authorize_user_by_email<D: Db>(db: &D, user_email: &str, min_required_role: Role) -> (r:
    Result<User, Error>)
    ensures
        r matches Ok(u) ==> u.role.rank() >= min_required_role.rank(),
        r matches Err(e) ==> e is Repo || e == Error::Parameter(ParameterError::Unauthorized),
{
    match db.try_get_user_by_email(user_email) {
        Ok(account) => check_role(account, min_required_role),
        Err(e) => Err(repo(e)),
    }
}

fn str_refs(v: &[String]) -> (r: Vec<&str>)
    ensures
        views_of_strs(r@) == strs(v@),
{
    let mut r: Vec<&str> = Vec::new();
    let mut i: usize = 0;
    while i < v.len()
        invariant
            i <= v@.len(),
            views_of_strs(r@) == strs(v@).take(i as int),
        decreases v@.len() - i,
    {
        let ghost before = views_of_strs(r@);
        r.push(v[i].as_str());
        assert(views_of_strs(r@) == before.push(v@[i as int]@));
        assert(strs(v@).take(i + 1) == strs(v@).take(i as int).push(v@[i as int]@));
        i = i + 1;
    }
    assert(strs(v@).take(v@.len() as int) == strs(v@));
    r
}

/// Whether `s` is the canonical form of the raw tags `raw`.
pub open spec fn is_canonical_form(s: Seq<Seq<char>>, raw: Seq<Seq<char>>) -> bool {
    strictly_sorted(s) && s.to_set() == canonical_tags(raw)
}

/// Checks whether changing an entry's tags from `old_tags` to `new_tags` is permitted under
/// the moderation policies on file, both taken in canonical form. `org`, where given, is
/// exempt from its own policies on the labels it moderates. Returns the ascending ids of
/// the organizations that must approve the change.
pub fn authorize_moderated_tags_owned_by_orgs<D: Db>(
    db: &D,
    old_tags: &[String],
    new_tags: &[String],
    org: Option<&Organization>,
) -> (r: Result<Vec<Id>, Error>)
    ensures
        r matches Err(Error::Repo(_)) || exists|
            pol: Seq<(Id, crate::entities::ModeratedTag)>,
            o: Seq<Seq<char>>,
            n: Seq<Seq<char>>,
        |
            is_canonical_form(o, strs(old_tags@)) && is_canonical_form(n, strs(new_tags@))
                && decides(r, moderation_outcome(pol, opt_org(org), o, n)),
{
    let policies = match db.get_all_tags_owned_by_orgs() {
        Ok(p) => p,
        Err(e) => return Err(repo(e)),
    };
    let old_canonical = prepare_tag_list(str_refs(old_tags).as_slice());
    let new_canonical = prepare_tag_list(str_refs(new_tags).as_slice());
    let r = moderation_decision(policies.as_slice(), old_canonical.as_slice(), new_canonical.as_slice(), org);
    assert(is_canonical_form(strs(old_canonical@), strs(old_tags@)));
    assert(is_canonical_form(strs(new_canonical@), strs(new_tags@)));
    r
}

/// A new rating of a place, with its comment.
pub struct NewPlaceRating {
    pub entry: String,
    pub title: String,
    pub value: RatingValue,
    pub context: RatingContext,
    pub comment: String,
    pub source: Option<String>,
    pub user: Option<String>,
}

/// A checked rating, ready to be stored: the place, its review status, the rating and its
/// comment.
pub struct Storable(pub Place, pub ReviewStatus, pub Rating, pub Comment);

impl Storable {
    pub fn rating_id(&self) -> (r: &str)
        ensures
            r@ == self.2.id@,
    {
        self.2.id.as_str()
    }

    pub fn comment_id(&self) -> (r: &str)
        ensures
            r@ == self.3.id@,
    {
        self.3.id.as_str()
    }
}

pub open spec fn is_valid_rating_value(v: RatingValue) -> bool {
    RATING_VALUE_MIN <= v <= RATING_VALUE_MAX
}

/// Checks a new rating and builds what is to be stored: a rating with the id `rating_id`
/// and a comment with the id `comment_id`, both created at `now`. An empty comment and a
/// rating value out of range are rejected; the place must exist.
pub fn prepare_new_rating<D: Db>(
    db: &D,
    r: NewPlaceRating,
    now: i64,
    rating_id: Id,
    comment_id: Id,
) -> (res: Result<Storable, Error>)
    ensures
        r.comment@.len() == 0 ==> res == Err::<Storable, Error>(
            Error::Parameter(ParameterError::EmptyComment),
        ),
        r.comment@.len() > 0 && !is_valid_rating_value(r.value) ==> res == Err::<Storable, Error>(
            Error::Parameter(ParameterError::RatingValue),
        ),
        r.comment@.len() > 0 && is_valid_rating_value(r.value) ==> match res {
            Ok(s) => {
                &&& s.2.id@ == rating_id@
                &&& s.2.place_id@ == r.entry@
                &&& s.2.created_at == now
                &&& s.2.archived_at is None
                &&& s.2.title@ == r.title@
                &&& s.2.value == r.value
                &&& s.2.context == r.context
                &&& opt_str_view(s.2.source) == opt_str_view(r.source)
                &&& s.3.id@ == comment_id@
                &&& s.3.rating_id@ == rating_id@
                &&& s.3.created_at == now
                &&& s.3.archived_at is None
                &&& s.3.text@ == r.comment@
            },
            Err(e) => e is Repo,
        },
{
    if r.comment.as_str().unicode_len() == 0 {
        return Err(Error::Parameter(ParameterError::EmptyComment));
    }
    if !(RATING_VALUE_MIN <= r.value && r.value <= RATING_VALUE_MAX) {
        return Err(Error::Parameter(ParameterError::RatingValue));
    }
    let (place, status) = match db.get_place(r.entry.as_str()) {
        Ok(found) => found,
        Err(e) => return Err(repo(e)),
    };
    let rating = Rating {
        id: rating_id.clone(),
        place_id: r.entry,
        created_at: now,
        archived_at: None,
        title: r.title,
        value: r.value,
        context: r.context,
        source: r.source,
    };
    let comment = Comment {
        id: comment_id,
        rating_id,
        created_at: now,
        archived_at: None,
        text: r.comment,
    };
    Ok(Storable(place, status, rating, comment))
}

pub open spec fn opt_str_view(o: Option<String>) -> Option<Seq<char>> {
    match o {
        Some(s) => Some(s@),
        None => None,
    }
}

/// Stores a checked rating and its comment; returns the place, its status and all its
/// ratings.
pub fn store_new_rating<D: Db>(db: &D, s: Storable) -> (r: Result<
    (Place, ReviewStatus, Vec<Rating>),
    Error,
>)
    ensures
        r matches Ok(t) ==> t.0 == s.0 && t.1 == s.1,
        r matches Err(e) ==> e is Repo,
{
    let Storable(place, status, rating, comment) = s;
    if let Err(e) = db.create_rating(rating) {
        return Err(repo(e));
    }
    if let Err(e) = db.create_comment(comment) {
        return Err(repo(e));
    }
    match db.load_ratings_of_place(place.id.as_str()) {
        Ok(ratings) => Ok((place, status, ratings)),
        Err(e) => Err(repo(e)),
    }
}

} // verus!
