use std::cell::{Cell, RefCell};

use openfairdb::entities::{
    BboxSubscription, Comment, Event, MapBbox, MapPoint, ModeratedTag, Organization, Place,
    Rating, RatingContext, ReviewStatus, Role, User,
};
use openfairdb::error::{Error, IndexError, ParameterError, RepoError};
use openfairdb::ports::{Db, IdIndex};
use openfairdb::query::{EventQuery, IndexQuery};
use openfairdb::search::{
    filter_by_creator, halo_request, ids_to_resolve, query_events, search_events, sort_events_by_start,
    token_lookup_error,
};
use openfairdb::usecases::{
    authorize_moderated_tags_owned_by_orgs, authorize_user_by_email, bbox_subscriptions_by_coordinate,
    check_role, delete_user, email_addresses_by_coordinate, get_bbox_subscriptions, get_event,
    get_user, load_ratings_with_comments, prepare_new_rating, store_new_rating, str_eq,
    subscribe_to_bbox, unsubscribe_all_bboxes, NewPlaceRating,
};

#[derive(Default)]
struct MockDb {
    entries: Vec<(Place, ReviewStatus)>,
    ratings: RefCell<Vec<Rating>>,
    comments: RefCell<Vec<Comment>>,
    events: Vec<Event>,
    users: RefCell<Vec<User>>,
    orgs: Vec<Organization>,
    moderated: Vec<(String, ModeratedTag)>,
    subscriptions: RefCell<Vec<BboxSubscription>>,
}

impl Db for MockDb {
    fn get_user_by_email(&self, email: &str) -> Result<User, RepoError> {
        self.users.borrow().iter().find(|u| u.email == email).cloned().ok_or(RepoError::NotFound)
    }
    fn try_get_user_by_email(&self, email: &str) -> Result<Option<User>, RepoError> {
        Ok(self.users.borrow().iter().find(|u| u.email == email).cloned())
    }
    fn delete_user_by_email(&self, email: &str) -> Result<(), RepoError> {
        let mut users = self.users.borrow_mut();
        let n = users.len();
        users.retain(|u| u.email != email);
        if users.len() == n {
            Err(RepoError::NotFound)
        } else {
            Ok(())
        }
    }
    fn get_event(&self, id: &str) -> Result<Event, RepoError> {
        self.events.iter().find(|e| e.id == id).cloned().ok_or(RepoError::NotFound)
    }
    fn get_events(&self, ids: &[String]) -> Result<Vec<Event>, RepoError> {
        Ok(ids.iter().filter_map(|id| self.events.iter().find(|e| &e.id == id).cloned()).collect())
    }
    fn all_events_chronologically(&self) -> Result<Vec<Event>, RepoError> {
        let mut events = self.events.clone();
        events.sort_by_key(|e| e.start);
        Ok(events)
    }
    fn get_org_by_api_token(&self, token: &str) -> Result<Organization, RepoError> {
        self.orgs.iter().find(|o| o.api_token == token).cloned().ok_or(RepoError::NotFound)
    }
    fn get_all_tags_owned_by_orgs(&self) -> Result<Vec<(String, ModeratedTag)>, RepoError> {
        Ok(self.moderated.clone())
    }
    fn create_bbox_subscription(&self, sub: &BboxSubscription) -> Result<(), RepoError> {
        self.subscriptions.borrow_mut().push(sub.clone());
        Ok(())
    }
    fn delete_bbox_subscriptions_by_email(&self, email: &str) -> Result<(), RepoError> {
        self.subscriptions.borrow_mut().retain(|s| s.user_email != email);
        Ok(())
    }
    fn all_bbox_subscriptions(&self) -> Result<Vec<BboxSubscription>, RepoError> {
        Ok(self.subscriptions.borrow().clone())
    }
    fn get_place(&self, id: &str) -> Result<(Place, ReviewStatus), RepoError> {
        self.entries.iter().find(|(p, _)| p.id == id).cloned().ok_or(RepoError::NotFound)
    }
    fn create_rating(&self, rating: Rating) -> Result<(), RepoError> {
        self.ratings.borrow_mut().push(rating);
        Ok(())
    }
    fn create_comment(&self, comment: Comment) -> Result<(), RepoError> {
        self.comments.borrow_mut().push(comment);
        Ok(())
    }
    fn load_ratings(&self, ids: &[&str]) -> Result<Vec<Rating>, RepoError> {
        Ok(self.ratings.borrow().iter().filter(|r| ids.contains(&r.id.as_str())).cloned().collect())
    }
    fn load_ratings_of_place(&self, place_id: &str) -> Result<Vec<Rating>, RepoError> {
        Ok(self.ratings.borrow().iter().filter(|r| r.place_id == place_id).cloned().collect())
    }
    fn zip_ratings_with_comments(
        &self,
        ratings: Vec<Rating>,
    ) -> Result<Vec<(Rating, Vec<Comment>)>, RepoError> {
        let comments = self.comments.borrow();
        Ok(ratings
            .into_iter()
            .map(|r| {
                let cs = comments.iter().filter(|c| c.rating_id == r.id).cloned().collect();
                (r, cs)
            })
            .collect())
    }
}

fn place(id: &str) -> Place {
    Place { id: id.into(), title: "title".into(), description: String::new(), tags: vec![] }
}

fn new_rating(entry: &str, comment: &str, value: i8) -> NewPlaceRating {
    NewPlaceRating {
        entry: entry.into(),
        title: "title".into(),
        value,
        context: RatingContext::Fairness,
        comment: comment.into(),
        source: Some("source".into()),
        user: None,
    }
}

fn prepare(db: &MockDb, r: NewPlaceRating) -> Result<openfairdb::usecases::Storable, Error> {
    prepare_new_rating(db, r, 1_000, "rating-1".into(), "comment-1".into())
}

#[test]
fn rate_non_existing_entry() {
    let db = MockDb::default();
    assert!(prepare(&db, new_rating("does_not_exist", "a comment", 2)).is_err());
}

#[test]
fn rate_with_empty_comment() {
    let mut db = MockDb::default();
    db.entries = vec![(place("foo"), ReviewStatus::Created)];
    let r = prepare(&db, new_rating("foo", "", 2));
    assert!(r.is_err());
    assert!(matches!(r, Err(Error::Parameter(ParameterError::EmptyComment))));
}

#[test]
fn rate_with_invalid_value_comment() {
    let mut db = MockDb::default();
    db.entries = vec![(place("foo"), ReviewStatus::Created)];
    assert!(prepare(&db, new_rating("foo", "comment", 3)).is_err());
    assert!(prepare(&db, new_rating("foo", "comment", -2)).is_err());
    assert!(matches!(
        prepare(&db, new_rating("foo", "comment", 3)),
        Err(Error::Parameter(ParameterError::RatingValue))
    ));
}

#[test]
fn rate_without_login() {
    let mut db = MockDb::default();
    db.entries = vec![(place("foo"), ReviewStatus::Created)];
    let c = prepare(&db, new_rating("foo", "comment", 2)).unwrap();
    assert!(store_new_rating(&db, c).is_ok());

    assert_eq!(db.ratings.borrow().len(), 1);
    assert_eq!(db.comments.borrow().len(), 1);
    assert_eq!(db.ratings.borrow()[0].place_id, "foo");
    assert_eq!(db.comments.borrow()[0].rating_id, db.ratings.borrow()[0].id);
}

#[test]
fn prepared_rating_carries_its_fields() {
    let mut db = MockDb::default();
    db.entries = vec![(place("foo"), ReviewStatus::Confirmed)];
    let s = prepare(&db, new_rating("foo", "nice", -1)).unwrap();
    assert_eq!(s.rating_id(), "rating-1");
    assert_eq!(s.comment_id(), "comment-1");
    assert_eq!(s.1, ReviewStatus::Confirmed);
    assert_eq!(s.2.value, -1);
    assert_eq!(s.2.created_at, 1_000);
    assert_eq!(s.3.text, "nice");
    assert_eq!(s.3.rating_id, "rating-1");
    let (p, status, ratings) = store_new_rating(&db, s).unwrap();
    assert_eq!(p.id, "foo");
    assert_eq!(status, ReviewStatus::Confirmed);
    assert_eq!(ratings.len(), 1);
    let loaded = load_ratings_with_comments(&db, &["rating-1"]).unwrap();
    assert_eq!(loaded.len(), 1);
    assert_eq!(loaded[0].1.len(), 1);
}

fn event(id: &str, start: i64, created_by: Option<&str>) -> Event {
    Event {
        id: id.into(),
        title: id.into(),
        description: None,
        start,
        end: None,
        tags: vec![],
        created_by: created_by.map(|s| s.to_string()),
    }
}

fn user(email: &str, role: Role) -> User {
    User { email: email.into(), email_confirmed: true, password: "secret".into(), role }
}

/// An index over event positions that counts its queries.
struct MockIndex {
    positions: Vec<(String, MapPoint)>,
    calls: Cell<usize>,
    limits: RefCell<Vec<usize>>,
}

impl IdIndex for MockIndex {
    fn query_ids(&self, query: &IndexQuery, limit: usize) -> Result<Vec<String>, IndexError> {
        self.calls.set(self.calls.get() + 1);
        self.limits.borrow_mut().push(limit);
        Ok(self
            .positions
            .iter()
            .filter(|(_, p)| query.include_bbox.map_or(true, |b| b.contains_point(*p)))
            .filter(|(_, p)| query.exclude_bbox.map_or(true, |b| !b.contains_point(*p)))
            .take(limit)
            .map(|(id, _)| id.clone())
            .collect())
    }
}

struct FailingIndex;

impl IdIndex for FailingIndex {
    fn query_ids(&self, _: &IndexQuery, _: usize) -> Result<Vec<String>, IndexError> {
        Err(IndexError { message: "broken".into() })
    }
}

const DEG: i32 = 10_000_000;

fn viewport() -> MapBbox {
    MapBbox {
        south_west: MapPoint { lat: 0, lng: 0 },
        north_east: MapPoint { lat: 10 * DEG, lng: 10 * DEG },
    }
}

fn search_fixture() -> (MockDb, MockIndex) {
    let mut db = MockDb::default();
    db.events = vec![
        event("in1", 30, Some("a@x")),
        event("in2", 10, Some("b@x")),
        event("in3", 20, Some("a@x")),
        event("out1", 50, Some("a@x")),
        event("out2", 40, None),
        event("far", 5, None),
    ];
    let index = MockIndex {
        positions: vec![
            ("in1".into(), MapPoint { lat: DEG, lng: DEG }),
            ("out1".into(), MapPoint { lat: 11 * DEG, lng: 5 * DEG }),
            ("in2".into(), MapPoint { lat: 5 * DEG, lng: 5 * DEG }),
            ("out2".into(), MapPoint { lat: 5 * DEG, lng: -DEG }),
            ("in3".into(), MapPoint { lat: 9 * DEG, lng: 9 * DEG }),
            ("far".into(), MapPoint { lat: 80 * DEG, lng: 80 * DEG }),
        ],
        calls: Cell::new(0),
        limits: RefCell::new(vec![]),
    };
    (db, index)
}

fn ids(events: &[Event]) -> Vec<&str> {
    events.iter().map(|e| e.id.as_str()).collect()
}

#[test]
fn search_fills_limit_from_halo() {
    let (db, index) = search_fixture();
    let q = EventQuery { bbox: Some(viewport()), limit: Some(5), ..Default::default() };
    let events = query_events(&db, &index, q, None).unwrap();
    assert_eq!(ids(&events), vec!["in2", "in3", "in1", "out2", "out1"]);
    assert_eq!(index.calls.get(), 2);
    assert_eq!(*index.limits.borrow(), vec![5, 2]);
}

#[test]
fn search_skips_halo_when_viewport_fills_limit() {
    let (db, index) = search_fixture();
    let q = EventQuery { bbox: Some(viewport()), limit: Some(2), ..Default::default() };
    let events = query_events(&db, &index, q, None).unwrap();
    assert_eq!(events.len(), 2);
    assert_eq!(index.calls.get(), 1);
    assert_eq!(ids(&events), vec!["in2", "in1"]);
}

#[test]
fn search_without_bbox_runs_one_query() {
    let (db, index) = search_fixture();
    let q = EventQuery { text: Some("anything".into()), ..Default::default() };
    let events = query_events(&db, &index, q, None).unwrap();
    assert_eq!(index.calls.get(), 1);
    assert_eq!(*index.limits.borrow(), vec![100]);
    assert_eq!(ids(&events), vec!["far", "in2", "in3", "in1", "out2", "out1"]);
}

#[test]
fn empty_search_returns_everything_unindexed() {
    let (db, index) = search_fixture();
    let events = query_events(&db, &index, EventQuery::default(), None).unwrap();
    assert_eq!(index.calls.get(), 0);
    assert_eq!(events.len(), 6);
}

#[test]
fn search_by_unknown_creator_is_empty() {
    let (db, index) = search_fixture();
    let q = EventQuery { created_by: Some("nobody@x".into()), ..Default::default() };
    let events = query_events(&db, &index, q, None).unwrap();
    assert!(events.is_empty());
}

#[test]
fn search_by_creator_keeps_their_events() {
    let (db, index) = search_fixture();
    db.users.borrow_mut().push(user("a@x", Role::User));
    let q = EventQuery { created_by: Some("a@x".into()), ..Default::default() };
    let events = query_events(&db, &index, q, None).unwrap();
    assert_eq!(ids(&events), vec!["in3", "in1", "out1"]);
}

#[test]
fn repeated_search_gives_identical_result() {
    let (db, index) = search_fixture();
    let q = EventQuery { bbox: Some(viewport()), limit: Some(4), ..Default::default() };
    let first = query_events(&db, &index, q.clone(), None).unwrap();
    let second = query_events(&db, &index, q, None).unwrap();
    assert_eq!(first, second);
}

#[test]
fn search_with_invalid_limit_fails() {
    let (db, index) = search_fixture();
    let q = EventQuery { limit: Some(0), ..Default::default() };
    assert_eq!(
        query_events(&db, &index, q, None),
        Err(Error::Parameter(ParameterError::InvalidLimit))
    );
    assert_eq!(index.calls.get(), 0);
}

#[test]
fn search_in_inverted_bbox_finds_nothing() {
    let (db, index) = search_fixture();
    let inverted = MapBbox {
        south_west: MapPoint { lat: 10, lng: 0 },
        north_east: MapPoint { lat: 0, lng: 10 },
    };
    let q = EventQuery { bbox: Some(inverted), ..Default::default() };
    assert_eq!(query_events(&db, &index, q, None), Ok(vec![]));
    assert_eq!(index.calls.get(), 2);
}

#[test]
fn search_with_injected_halo_extension() {
    let (db, index) = search_fixture();
    let q = EventQuery { bbox: Some(viewport()), limit: Some(5), ..Default::default() };
    // without extension the halo region is the viewport itself, which it excludes
    let events = search_events(&db, &index, q, None, 0).unwrap();
    assert_eq!(ids(&events), vec!["in2", "in3", "in1"]);
    assert_eq!(*index.limits.borrow(), vec![5, 2]);
}

#[test]
fn halo_runs_only_with_box_and_capacity() {
    let h = IndexQuery { text: Some("t".into()), ..Default::default() };
    match halo_request(Some(h), 3, 5) {
        Some((q, rest)) => {
            assert_eq!(rest, 2);
            assert_eq!(q.text, Some("t".to_string()));
        }
        None => panic!("halo query expected"),
    }
    assert!(halo_request(Some(IndexQuery::default()), 5, 5).is_none());
    assert!(halo_request(None, 0, 5).is_none());
}

#[test]
fn storage_receives_viewport_then_halo_ids() {
    let v: Vec<String> = vec!["v1".into(), "v2".into()];
    let h: Vec<String> = vec!["h1".into()];
    assert_eq!(ids_to_resolve(v.clone(), Some(h)), vec!["v1", "v2", "h1"]);
    assert_eq!(ids_to_resolve(v, None), vec!["v1", "v2"]);
}

#[test]
fn search_with_unknown_token_is_unauthorized() {
    let (db, index) = search_fixture();
    let q = EventQuery { limit: Some(3), ..Default::default() };
    assert_eq!(
        query_events(&db, &index, q, Some("nope".into())),
        Err(Error::Parameter(ParameterError::Unauthorized))
    );
    assert_eq!(
        token_lookup_error(RepoError::Other("io".into())),
        Error::Repo(RepoError::Other("io".into()))
    );
}

#[test]
fn search_index_failure_is_reported() {
    let (db, _) = search_fixture();
    let q = EventQuery { limit: Some(3), ..Default::default() };
    assert_eq!(
        query_events(&db, &FailingIndex, q, None),
        Err(Error::Repo(RepoError::Other("broken".into())))
    );
}

#[test]
fn sorting_is_stable_by_start() {
    let events = vec![event("a", 2, None), event("b", 1, None), event("c", 2, None), event("d", 0, None)];
    let sorted = sort_events_by_start(events);
    assert_eq!(ids(&sorted), vec!["d", "b", "a", "c"]);
    assert!(sort_events_by_start(vec![]).is_empty());
}

#[test]
fn creator_filter_without_account_is_empty() {
    let events = vec![event("a", 1, Some("x@y")), event("b", 2, Some("z@y")), event("c", 3, None)];
    assert!(filter_by_creator(events.clone(), None).is_empty());
    let u = user("x@y", Role::Guest);
    assert_eq!(ids(&filter_by_creator(events, Some(&u))), vec!["a"]);
}

#[test]
fn users_only_see_and_delete_themselves() {
    let db = MockDb::default();
    db.users.borrow_mut().push(user("a@x", Role::User));
    assert_eq!(get_user(&db, "b@x", "a@x"), Err(Error::Parameter(ParameterError::Forbidden)));
    assert_eq!(get_user(&db, "a@x", "a@x").unwrap().email, "a@x");
    assert_eq!(delete_user(&db, "b@x", "a@x"), Err(Error::Parameter(ParameterError::Forbidden)));
    assert_eq!(delete_user(&db, "a@x", "a@x"), Ok(()));
    assert_eq!(get_user(&db, "a@x", "a@x"), Err(Error::Repo(RepoError::NotFound)));
    assert!(str_eq("äb", "äb"));
    assert!(!str_eq("ab", "abc"));
}

#[test]
fn get_event_reports_missing_event() {
    let (db, _) = search_fixture();
    assert_eq!(get_event(&db, "in1").unwrap().start, 30);
    assert_eq!(get_event(&db, "none"), Err(Error::Repo(RepoError::NotFound)));
}

#[test]
fn roles_are_checked() {
    let db = MockDb::default();
    db.users.borrow_mut().push(user("s@x", Role::Scout));
    assert_eq!(authorize_user_by_email(&db, "s@x", Role::User).unwrap().email, "s@x");
    assert_eq!(
        authorize_user_by_email(&db, "s@x", Role::Admin),
        Err(Error::Parameter(ParameterError::Unauthorized))
    );
    assert_eq!(
        authorize_user_by_email(&db, "none@x", Role::Guest),
        Err(Error::Parameter(ParameterError::Unauthorized))
    );
    assert_eq!(check_role(None, Role::Guest), Err(Error::Parameter(ParameterError::Unauthorized)));
}

#[test]
fn subscriptions_replace_and_match_positions() {
    let db = MockDb::default();
    let b = viewport();
    assert_eq!(subscribe_to_bbox(&db, "s1".into(), "a@x".into(), b), Ok(()));
    assert_eq!(subscribe_to_bbox(&db, "s2".into(), "a@x".into(), b), Ok(()));
    assert_eq!(subscribe_to_bbox(&db, "s3".into(), "b@x".into(), b), Ok(()));
    let subs = get_bbox_subscriptions(&db, "a@x").unwrap();
    assert_eq!(subs.len(), 1);
    assert_eq!(subs[0].id, "s2");
    let inside = MapPoint { lat: DEG, lng: DEG };
    let outside = MapPoint { lat: 20 * DEG, lng: DEG };
    assert_eq!(bbox_subscriptions_by_coordinate(&db, inside).unwrap().len(), 2);
    assert!(bbox_subscriptions_by_coordinate(&db, outside).unwrap().is_empty());
    assert_eq!(email_addresses_by_coordinate(&db, inside).unwrap(), vec!["a@x", "b@x"]);
    assert_eq!(unsubscribe_all_bboxes(&db, "a@x"), Ok(()));
    assert!(get_bbox_subscriptions(&db, "a@x").unwrap().is_empty());
    let bad = MapBbox {
        south_west: MapPoint { lat: 10, lng: 0 },
        north_east: MapPoint { lat: 0, lng: 10 },
    };
    assert_eq!(
        subscribe_to_bbox(&db, "s4".into(), "a@x".into(), bad),
        Err(Error::Parameter(ParameterError::Bbox))
    );
}

#[test]
fn tag_change_is_authorized_in_canonical_form() {
    let mut db = MockDb::default();
    db.moderated = vec![
        (
            "org1".into(),
            ModeratedTag {
                label: "locked".into(),
                allows_add: false,
                allows_remove: true,
                requires_authorization: false,
            },
        ),
        (
            "org2".into(),
            ModeratedTag {
                label: "watched".into(),
                allows_add: true,
                allows_remove: true,
                requires_authorization: true,
            },
        ),
    ];
    let old: Vec<String> = vec!["a".into()];
    let r = authorize_moderated_tags_owned_by_orgs(&db, &old, &["#Locked".into()], None);
    assert_eq!(r, Err(Error::Parameter(ParameterError::ModeratedTag)));
    let r = authorize_moderated_tags_owned_by_orgs(&db, &["A".into()], &["a WATCHED".into()], None);
    assert_eq!(r, Ok(vec!["org2".to_string()]));
    let r = authorize_moderated_tags_owned_by_orgs(&db, &["a".into()], &["A b".into()], None);
    assert_eq!(r, Ok(vec![]));
}
