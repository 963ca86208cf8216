use vstd::prelude::*;

use crate::entities::{MapBbox, MapPoint, LAT_MAX, LNG_MAX};
use crate::error::{Error, ParameterError};
use crate::tags::MARKER;
use crate::text::{chars_of, chars_of_str, split_words, string_from_chars, strs, words_of};

verus! {

/// The result limit that applies where a request names none.
pub const DEFAULT_RESULT_LIMIT: usize = 100;

/// The largest result limit; larger requested limits are clamped to it.
pub const MAX_RESULT_LIMIT: usize = 500;

/// By how many percent of its span the halo region extends the viewport on each side.
pub const HALO_EXTENSION_PERCENT: u16 = 50;

/// The category id of events in the search index.
pub const EVENT_CATEGORY_ID: &'static str = "2cd00bebec0c48ba9db761da48678134";

/// A search request for events. Every criterion is optional.
#[derive(Clone, Debug, Default)]
pub struct EventQuery {
    pub bbox: Option<MapBbox>,
    pub created_by: Option<String>,
    pub start_min: Option<i64>,
    pub start_max: Option<i64>,
    pub tags: Option<Vec<String>>,
    pub text: Option<String>,
    pub limit: Option<usize>,
}

impl EventQuery {
    pub open spec fn spec_is_empty(&self) -> bool {
        self.bbox is None && self.created_by is None && self.start_min is None
            && self.start_max is None && self.tags is None && self.text is None
            && self.limit is None
    }

    /// Whether the request names no criterion at all.
    pub fn is_empty(&self) -> (r: bool)
        ensures
            r == self.spec_is_empty(),
    {
        self.bbox.is_none() && self.created_by.is_none() && self.start_min.is_none()
            && self.start_max.is_none() && self.tags.is_none() && self.text.is_none()
            && self.limit.is_none()
    }
}

/// The structured query that a search index executes.
#[derive(Debug, Default)]
pub struct IndexQuery {
    pub include_bbox: Option<MapBbox>,
    pub exclude_bbox: Option<MapBbox>,
    pub categories: Vec<String>,
    pub hash_tags: Vec<String>,
    pub text_tags: Vec<String>,
    pub text: Option<String>,
    pub ts_min_lb: Option<i64>,
    pub ts_min_ub: Option<i64>,
}

/// How a search request is to be answered.
#[derive(Debug)]
pub enum SearchPlan {
    /// The request names no criterion: all events, in chronological order, unindexed.
    All,
    /// The viewport query, the halo query where a bounding box was given, and the limit.
    Indexed { visible: IndexQuery, halo: Option<IndexQuery>, limit: usize },
}

pub open spec fn opt_view(o: Option<String>) -> Option<Seq<char>> {
    match o {
        Some(s) => Some(s@),
        None => None,
    }
}

/// A word that a marker introduces and that holds more than the marker.
pub open spec fn is_hashtag(w: Seq<char>) -> bool {
    w.len() > 1 && w[0] == MARKER
}

/// The hashtags among the words `ws`, without their marker, in order.
pub open spec fn hashtags_of(ws: Seq<Seq<char>>) -> Seq<Seq<char>>
    decreases ws.len(),
{
    if ws.len() == 0 {
        seq![]
    } else if is_hashtag(ws.last()) {
        hashtags_of(ws.drop_last()).push(ws.last().skip(1))
    } else {
        hashtags_of(ws.drop_last())
    }
}

/// The words of `ws` that are no hashtags, in order.
pub open spec fn plain_words(ws: Seq<Seq<char>>) -> Seq<Seq<char>>
    decreases ws.len(),
{
    if ws.len() == 0 {
        seq![]
    } else if is_hashtag(ws.last()) {
        plain_words(ws.drop_last())
    } else {
        plain_words(ws.drop_last()).push(ws.last())
    }
}

/// The words joined by single spaces.
pub open spec fn join_words(ws: Seq<Seq<char>>) -> Seq<char>
    decreases ws.len(),
{
    if ws.len() == 0 {
        seq![]
    } else if ws.len() == 1 {
        ws[0]
    } else {
        join_words(ws.drop_last()) + seq![' '] + ws.last()
    }
}

/// The hashtags of the request: those in its text, then the tags it names.
pub open spec fn query_hash_tags(q: EventQuery) -> Seq<Seq<char>> {
    let from_text = match q.text {
        Some(t) => hashtags_of(split_words(t@)),
        None => seq![],
    };
    let named = match q.tags {
        Some(ts) => strs(ts@),
        None => seq![],
    };
    from_text + named
}

/// The words of the request's text that are no hashtags.
pub open spec fn query_text_words(q: EventQuery) -> Seq<Seq<char>> {
    match q.text {
        Some(t) => plain_words(split_words(t@)),
        None => seq![],
    }
}

/// The request's text without its hashtags; absent where nothing else is left.
pub open spec fn query_residual_text(q: EventQuery) -> Option<Seq<char>> {
    if query_text_words(q).len() > 0 {
        Some(join_words(query_text_words(q)))
    } else {
        None
    }
}

/// The limit that applies to a request, or the error for a zero limit.
pub open spec fn effective_limit(limit: Option<usize>) -> Result<usize, Error> {
    match limit {
        Some(l) => if l > MAX_RESULT_LIMIT {
            Ok(MAX_RESULT_LIMIT)
        } else if l == 0 {
            Err(Error::Parameter(ParameterError::InvalidLimit))
        } else {
            Ok(l)
        },
        None => Ok(DEFAULT_RESULT_LIMIT),
    }
}

/// The span of `lo..hi`, or zero where `hi` lies below `lo`.
pub open spec fn span(lo: int, hi: int) -> int {
    if hi >= lo {
        hi - lo
    } else {
        0
    }
}

/// `lo` moved down by `percent` of the span of `lo..hi`, but not below `-bound` where it
/// lay within it.
pub open spec fn widen_lo(lo: int, hi: int, percent: int, bound: int) -> int {
    let d = span(lo, hi) * percent / 100;
    if lo - d >= -bound {
        lo - d
    } else if lo >= -bound {
        -bound
    } else {
        lo
    }
}

/// `hi` moved up by `percent` of the span of `lo..hi`, but not above `bound` where it lay
/// within it.
pub open spec fn widen_hi(lo: int, hi: int, percent: int, bound: int) -> int {
    let d = span(lo, hi) * percent / 100;
    if hi + d <= bound {
        hi + d
    } else if hi <= bound {
        bound
    } else {
        hi
    }
}

/// The viewport widened on each side by `percent` of its span, within the valid
/// coordinates. A box that crosses the antimeridian keeps its longitudes.
pub open spec fn extended_bbox(b: MapBbox, percent: int) -> MapBbox {
    let sw = b.south_west;
    let ne = b.north_east;
    let crosses = sw.lng > ne.lng;
    MapBbox {
        south_west: MapPoint {
            lat: widen_lo(sw.lat as int, ne.lat as int, percent, LAT_MAX as int) as i32,
            lng: if crosses {
                sw.lng
            } else {
                widen_lo(sw.lng as int, ne.lng as int, percent, LNG_MAX as int) as i32
            },
        },
        north_east: MapPoint {
            lat: widen_hi(sw.lat as int, ne.lat as int, percent, LAT_MAX as int) as i32,
            lng: if crosses {
                ne.lng
            } else {
                widen_hi(sw.lng as int, ne.lng as int, percent, LNG_MAX as int) as i32
            },
        },
    }
}

/// Whether `v` is the viewport query for the request `q`.
pub open spec fn is_visible_query(v: IndexQuery, q: EventQuery) -> bool {
    &&& v.include_bbox == q.bbox
    &&& v.exclude_bbox is None
    &&& strs(v.categories@) == seq![EVENT_CATEGORY_ID@]
    &&& strs(v.hash_tags@) == query_hash_tags(q)
    &&& strs(v.text_tags@) == query_text_words(q)
    &&& opt_view(v.text) == query_residual_text(q)
    &&& v.ts_min_lb == q.start_min
    &&& v.ts_min_ub == q.start_max
}

/// Whether `h` is the halo query for the request `q`, whose viewport is `b`.
pub open spec fn is_halo_query(h: IndexQuery, q: EventQuery, b: MapBbox, percent: int) -> bool {
    &&& h.include_bbox == Some(extended_bbox(b, percent))
    &&& h.exclude_bbox == Some(b)
    &&& strs(h.categories@) == seq![EVENT_CATEGORY_ID@]
    &&& strs(h.hash_tags@) == query_hash_tags(q)
    &&& strs(h.text_tags@) == query_text_words(q)
    &&& opt_view(h.text) == query_residual_text(q)
    &&& h.ts_min_lb == q.start_min
    &&& h.ts_min_ub == q.start_max
}

/// Whether `p` is the plan for the request `q`, whose halo extends by `percent`.
pub open spec fn is_plan_for(p: SearchPlan, q: EventQuery, percent: int) -> bool {
    if q.spec_is_empty() {
        p is All
    } else {
        match p {
            SearchPlan::All => false,
            SearchPlan::Indexed { visible, halo, limit } => {
                &&& effective_limit(q.limit) == Ok::<usize, Error>(limit)
                &&& is_visible_query(visible, q)
                &&& match q.bbox {
                    Some(b) => halo is Some && is_halo_query(halo->0, q, b, percent),
                    None => halo is None,
                }
            },
        }
    }
}

/// The limit that applies to a request: the requested one, clamped to `MAX_RESULT_LIMIT`,
/// or `DEFAULT_RESULT_LIMIT` where none was requested. A zero limit is an error.
pub fn search_limit(limit: Option<usize>) -> (r: Result<usize, Error>)
    ensures
        r == effective_limit(limit),
{
    match limit {
        Some(l) => {
            if l > MAX_RESULT_LIMIT {
                Ok(MAX_RESULT_LIMIT)
            } else if l == 0 {
                Err(Error::Parameter(ParameterError::InvalidLimit))
            } else {
                Ok(l)
            }
        },
        None => Ok(DEFAULT_RESULT_LIMIT),
    }
}

fn widen(lo: i32, hi: i32, percent: u16, bound: i32) -> (r: (i32, i32))
    requires
        0 < bound <= LNG_MAX,
    ensures
        r.0 == widen_lo(lo as int, hi as int, percent as int, bound as int),
        r.1 == widen_hi(lo as int, hi as int, percent as int, bound as int),
{
    let sp: i64 = if hi >= lo {
        hi as i64 - lo as i64
    } else {
        0
    };
    assert(0 <= sp * (percent as i64) <= 4_294_967_296 * 65535) by (nonlinear_arith)
        requires
            0 <= sp <= 4_294_967_296,
            0 <= percent <= 65535,
    ;
    let d: i64 = sp * (percent as i64) / 100;
    let new_lo: i64 = if lo as i64 - d >= -(bound as i64) {
        lo as i64 - d
    } else if lo as i64 >= -(bound as i64) {
        -(bound as i64)
    } else {
        lo as i64
    };
    let new_hi: i64 = if hi as i64 + d <= bound as i64 {
        hi as i64 + d
    } else if hi as i64 <= bound as i64 {
        bound as i64
    } else {
        hi as i64
    };
    (new_lo as i32, new_hi as i32)
}

/// The box `b` widened on each side by `percent` of its span, within the valid coordinates
/// where it lay within them; a box that crosses the antimeridian keeps its longitudes.
pub fn extend_bbox(b: &MapBbox, percent: u16) -> (r: MapBbox)
    ensures
        r == extended_bbox(*b, percent as int),
        b.is_valid() ==> r.is_valid(),
        r.south_west.lat <= b.south_west.lat,
        r.north_east.lat >= b.north_east.lat,
{
    let (s, n) = widen(b.south_west.lat, b.north_east.lat, percent, LAT_MAX);
    let (w, e) = if b.south_west.lng > b.north_east.lng {
        (b.south_west.lng, b.north_east.lng)
    } else {
        widen(b.south_west.lng, b.north_east.lng, percent, LNG_MAX)
    };
    MapBbox { south_west: MapPoint { lat: s, lng: w }, north_east: MapPoint { lat: n, lng: e } }
}

/// Splits a search text into its hashtags (without marker) and its other words.
pub fn split_hash_tags(text: &str) -> (r: (Vec<String>, Vec<String>))
    ensures
        strs(r.0@) == hashtags_of(split_words(text@)),
        strs(r.1@) == plain_words(split_words(text@)),
{
    let words = words_of(&chars_of_str(text));
    let ghost ws = split_words(text@);
    let mut tags: Vec<String> = Vec::new();
    let mut plain: Vec<String> = Vec::new();
    let mut i: usize = 0;
    while i < words.len()
        invariant
            chars_of(words@) == ws,
            i <= words@.len(),
            strs(tags@) == hashtags_of(ws.take(i as int)),
            strs(plain@) == plain_words(ws.take(i as int)),
        decreases words@.len() - i,
    {
        let w = &words[i];
        assert(ws[i as int] == w@);
        assert(ws.take(i + 1).drop_last() == ws.take(i as int));
        assert(ws.take(i + 1).last() == w@);
        if w.len() > 1 && w[0] == MARKER {
            let mut rest: Vec<char> = Vec::new();
            let mut j: usize = 1;
            while j < w.len()
                invariant
                    1 <= j <= w@.len(),
                    rest@ == w@.subrange(1, j as int),
                decreases w@.len() - j,
            {
                rest.push(w[j]);
                assert(w@.subrange(1, j + 1) == w@.subrange(1, j as int).push(w@[j as int]));
                j = j + 1;
            }
            assert(w@.skip(1) == w@.subrange(1, w@.len() as int));
            let ghost before = strs(tags@);
            tags.push(string_from_chars(&rest));
            assert(strs(tags@) == before.push(w@.skip(1)));
        } else {
            let ghost before = strs(plain@);
            plain.push(string_from_chars(w));
            assert(strs(plain@) == before.push(w@));
        }
        i = i + 1;
    }
    assert(ws.take(ws.len() as int) == ws);
    (tags, plain)
}

/// The words joined by single spaces.
pub fn join_with_spaces(words: &Vec<String>) -> (r: String)
    ensures
        r@ == join_words(strs(words@)),
{
    let ghost ws = strs(words@);
    let mut out: Vec<char> = Vec::new();
    let mut i: usize = 0;
    while i < words.len()
        invariant
            ws == strs(words@),
            i <= words@.len(),
            out@ == join_words(ws.take(i as int)),
        decreases words@.len() - i,
    {
        let w = chars_of_str(words[i].as_str());
        assert(ws.take(i + 1).drop_last() == ws.take(i as int));
        assert(ws.take(i + 1).last() == w@);
        let ghost before = out@;
        if i > 0 {
            out.push(' ');
        }
        let mut j: usize = 0;
        let ghost base = out@;
        while j < w.len()
            invariant
                j <= w@.len(),
                out@ == base + w@.take(j as int),
            decreases w@.len() - j,
        {
            out.push(w[j]);
            assert(w@.take(j + 1) == w@.take(j as int).push(w@[j as int]));
            j = j + 1;
        }
        assert(w@.take(w@.len() as int) == w@);
        if i == 0 {
            assert(ws.take(1).len() == 1 && ws.take(1)[0] == w@);
            assert(out@ == w@);
        }
        i = i + 1;
    }
    assert(ws.take(ws.len() as int) == ws);
    string_from_chars(&out)
}

fn clone_strings(v: &Vec<String>) -> (r: Vec<String>)
    ensures
        strs(r@) == strs(v@),
{
    let mut r: Vec<String> = Vec::new();
    let mut i: usize = 0;
    while i < v.len()
        invariant
            i <= v@.len(),
            strs(r@) == strs(v@).take(i as int),
        decreases v@.len() - i,
    {
        let ghost before = strs(r@);
        r.push(v[i].clone());
        assert(strs(r@) == before.push(v@[i as int]@));
        assert(strs(v@).take(i + 1) == strs(v@).take(i as int).push(v@[i as int]@));
        i = i + 1;
    }
    assert(strs(v@).take(v@.len() as int) == strs(v@));
    r
}

fn clone_text(t: &Option<String>) -> (r: Option<String>)
    ensures
        opt_view(r) == opt_view(*t),
{
    match t {
        Some(s) => Some(s.clone()),
        None => None,
    }
}

fn event_categories() -> (r: Vec<String>)
    ensures
        strs(r@) == seq![EVENT_CATEGORY_ID@],
{
    let c = EVENT_CATEGORY_ID.to_owned();
    let r = vec![c];
    assert(strs(r@) =~= seq![EVENT_CATEGORY_ID@]);
    r
}

/// The viewport query for a request that names some criterion.
fn visible_query(q: &EventQuery) -> (r: IndexQuery)
    ensures
        is_visible_query(r, *q),
{
    let mut hash_tags: Vec<String> = Vec::new();
    let mut text_tags: Vec<String> = Vec::new();
    let mut text: Option<String> = None;
    assert(strs(hash_tags@) =~= seq![]);
    assert(strs(text_tags@) =~= seq![]);
    if let Some(t) = &q.text {
        let (found, plain) = split_hash_tags(t.as_str());
        hash_tags = found;
        if plain.len() > 0 {
            text = Some(join_with_spaces(&plain));
        }
        text_tags = plain;
    }
    if let Some(named) = &q.tags {
        let mut i: usize = 0;
        let ghost base = strs(hash_tags@);
        while i < named.len()
            invariant
                i <= named@.len(),
                strs(hash_tags@) == base + strs(named@).take(i as int),
            decreases named@.len() - i,
        {
            let ghost before = strs(hash_tags@);
            hash_tags.push(named[i].clone());
            assert(strs(hash_tags@) == before.push(named@[i as int]@));
            assert(strs(named@).take(i + 1) == strs(named@).take(i as int).push(named@[i as int]@));
            i = i + 1;
        }
        assert(strs(named@).take(named@.len() as int) == strs(named@));
    } else {
        assert(strs(hash_tags@) + seq![] =~= strs(hash_tags@));
    }
    assert(strs(hash_tags@) == query_hash_tags(*q));
    assert(strs(text_tags@) == query_text_words(*q));
    assert(opt_view(text) == query_residual_text(*q));
    IndexQuery {
        include_bbox: q.bbox,
        exclude_bbox: None,
        categories: event_categories(),
        hash_tags,
        text_tags,
        text,
        ts_min_lb: q.start_min,
        ts_min_ub: q.start_max,
    }
}

/// Turns a search request into a plan: the unindexed chronological listing for a request
/// without criteria; else the viewport query, the halo query (the viewport extended by
/// `percent`, the viewport itself excluded) where a bounding box is given, and the limit.
/// A zero limit is rejected.
pub fn plan_event_search(q: &EventQuery, percent: u16) -> (r: Result<SearchPlan, Error>)
    ensures
        q.spec_is_empty() ==> r is Ok && is_plan_for(r->Ok_0, *q, percent as int),
        !q.spec_is_empty() ==> match effective_limit(q.limit) {
            Err(e) => r == Err::<SearchPlan, Error>(e),
            Ok(_) => r is Ok && is_plan_for(r->Ok_0, *q, percent as int),
        },
{
    if q.is_empty() {
        return Ok(SearchPlan::All);
    }
    let limit = match search_limit(q.limit) {
        Ok(l) => l,
        Err(e) => return Err(e),
    };
    let visible = visible_query(q);
    let halo = match q.bbox {
        Some(b) => Some(
            IndexQuery {
                include_bbox: Some(extend_bbox(&b, percent)),
                exclude_bbox: Some(b),
                categories: event_categories(),
                hash_tags: clone_strings(&visible.hash_tags),
                text_tags: clone_strings(&visible.text_tags),
                text: clone_text(&visible.text),
                ts_min_lb: visible.ts_min_lb,
                ts_min_ub: visible.ts_min_ub,
            },
        ),
        None => None,
    };
    Ok(SearchPlan::Indexed { visible, halo, limit })
}

} // verus!
