use vstd::prelude::*;

use crate::entities::{Comment, Place, Rating, RatingContext};

verus! {

/// The figures that the admin dashboard shows.
pub struct DashBoardPresenter<'a> {
    pub email: &'a str,
    pub entry_count: usize,
    pub event_count: usize,
    pub tag_count: usize,
    pub user_count: usize,
}

/// Ratings, each with its comments.
pub type Ratings = Vec<(Rating, Vec<Comment>)>;

/// A place with its ratings grouped by context; each context appears in one group only,
/// in the order in which it first occurs.
pub struct EntryPresenter {
    pub entry: Place,
    pub ratings: Vec<(RatingContext, Ratings)>,
}

/// The ratings of `s` in context `c`, in order.
pub open spec fn ratings_in(s: Seq<(Rating, Vec<Comment>)>, c: RatingContext) -> Seq<
    (Rating, Vec<Comment>),
>
    decreases s.len(),
{
    if s.len() == 0 {
        seq![]
    } else if s.last().0.context == c {
        ratings_in(s.drop_last(), c).push(s.last())
    } else {
        ratings_in(s.drop_last(), c)
    }
}

/// Whether `g` groups the ratings `s` by context.
pub open spec fn grouped_by_context(
    g: Seq<(RatingContext, Ratings)>,
    s: Seq<(Rating, Vec<Comment>)>,
) -> bool {
    &&& forall|i: int, j: int| 0 <= i < j < g.len() ==> (#[trigger] g[i]).0 != (#[trigger] g[j]).0
    &&& forall|i: int|
        0 <= i < g.len() ==> (#[trigger] g[i]).1@ == ratings_in(s, g[i].0) && g[i].1@.len() > 0
    &&& forall|c: RatingContext|
        #[trigger] ratings_in(s, c).len() > 0 ==> exists|i: int| 0 <= i < g.len() && g[i].0 == c
}

impl EntryPresenter {
    /// Groups the ratings of `entry` by context.
    pub fn new(entry: Place, ratings: Vec<(Rating, Vec<Comment>)>) -> (r: EntryPresenter)
        ensures
            r.entry == entry,
            grouped_by_context(r.ratings@, ratings@),
    {
        let ghost orig = ratings@;
        let n = ratings.len();
        let mut rest = ratings;
        let mut groups: Vec<(RatingContext, Ratings)> = Vec::new();
        let mut k: usize = 0;
        assert(orig.skip(0) == orig);
        while rest.len() > 0
            invariant
                n == orig.len(),
                k + rest@.len() == orig.len(),
                rest@ == orig.skip(k as int),
                grouped_by_context(groups@, orig.take(k as int)),
            decreases rest@.len(),
        {
            let item = rest.remove(0);
            let ghost pre = orig.take(k as int);
            let ghost post = orig.take(k + 1);
            assert(post.drop_last() == pre);
            assert(post.last() == item);
            assert(rest@ == orig.skip(k + 1));
            let c = item.0.context;
            let mut j: usize = 0;
            while j < groups.len() && groups[j].0 != c
                invariant
                    j <= groups@.len(),
                    forall|x: int| 0 <= x < j ==> (#[trigger] groups@[x]).0 != c,
                decreases groups@.len() - j,
            {
                j = j + 1;
            }
            let ghost g0 = groups@;
            if j < groups.len() {
                let (gc, mut items) = groups.remove(j);
                items.push(item);
                groups.insert(j, (gc, items));
                assert(groups@ == g0.update(j as int, groups@[j as int]));
                assert forall|c2: RatingContext| #[trigger]
                    ratings_in(post, c2).len() > 0 implies exists|i: int|
                    0 <= i < groups@.len() && groups@[i].0 == c2 by {
                    if c2 != c {
                        assert(ratings_in(post, c2) == ratings_in(pre, c2));
                        let i = choose|i: int| 0 <= i < g0.len() && g0[i].0 == c2;
                        assert(groups@[i].0 == c2);
                    } else {
                        assert(groups@[j as int].0 == c2);
                    }
                }
            } else {
                let mut items: Ratings = Vec::new();
                items.push(item);
                groups.push((c, items));
                assert(groups@ == g0.push(groups@[g0.len() as int]));
                assert(ratings_in(pre, c).len() == 0) by {
                    if ratings_in(pre, c).len() > 0 {
                        let i = choose|i: int| 0 <= i < g0.len() && g0[i].0 == c;
                    }
                }
                assert(groups@[g0.len() as int].1@ =~= ratings_in(post, c));
                assert forall|c2: RatingContext| #[trigger]
                    ratings_in(post, c2).len() > 0 implies exists|i: int|
                    0 <= i < groups@.len() && groups@[i].0 == c2 by {
                    if c2 != c {
                        assert(ratings_in(post, c2) == ratings_in(pre, c2));
                        let i = choose|i: int| 0 <= i < g0.len() && g0[i].0 == c2;
                        assert(groups@[i].0 == c2);
                    } else {
                        assert(groups@[g0.len() as int].0 == c2);
                    }
                }
            }
            k = k + 1;
        }
        assert(orig.take(orig.len() as int) == orig);
        EntryPresenter { entry, ratings: groups }
    }
}

} // verus!
