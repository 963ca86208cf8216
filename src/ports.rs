use vstd::prelude::*;

use crate::entities::{
    BboxSubscription, Comment, Event, Id, ModeratedTag, Organization, Place, Rating,
    ReviewStatus, User,
};
use crate::error::{IndexError, RepoError};
use crate::query::IndexQuery;

verus! {

/// The storage that the use cases read and write. Implementations decide what each call
/// returns; the use cases hold for every outcome.
pub trait Db {
    fn get_user_by_email(&self, email: &str) -> Result<User, RepoError>;

    fn try_get_user_by_email(&self, email: &str) -> Result<Option<User>, RepoError>;

    fn delete_user_by_email(&self, email: &str) -> Result<(), RepoError>;

    fn get_event(&self, id: &str) -> Result<Event, RepoError>;

    fn get_events(&self, ids: &[String]) -> Result<Vec<Event>, RepoError>;

    fn all_events_chronologically(&self) -> Result<Vec<Event>, RepoError>;

    fn get_org_by_api_token(&self, token: &str) -> Result<Organization, RepoError>;

    /// Every moderated tag, with the id of the organization that holds it.
    fn get_all_tags_owned_by_orgs(&self) -> Result<Vec<(Id, ModeratedTag)>, RepoError>;

    fn create_bbox_subscription(&self, sub: &BboxSubscription) -> Result<(), RepoError>;

    fn delete_bbox_subscriptions_by_email(&self, email: &str) -> Result<(), RepoError>;

    fn all_bbox_subscriptions(&self) -> Result<Vec<BboxSubscription>, RepoError>;

    fn get_place(&self, id: &str) -> Result<(Place, ReviewStatus), RepoError>;

    fn create_rating(&self, rating: Rating) -> Result<(), RepoError>;

    fn create_comment(&self, comment: Comment) -> Result<(), RepoError>;

    fn load_ratings(&self, ids: &[&str]) -> Result<Vec<Rating>, RepoError>;

    fn load_ratings_of_place(&self, place_id: &str) -> Result<Vec<Rating>, RepoError>;

    fn zip_ratings_with_comments(&self, ratings: Vec<Rating>) -> Result<
        Vec<(Rating, Vec<Comment>)>,
        RepoError,
    >;
}

/// A search index that answers a structured query with at most `limit` ranked ids.
pub trait IdIndex {
    fn query_ids(&self, query: &IndexQuery, limit: usize) -> Result<Vec<Id>, IndexError>;
}

} // verus!
