use vstd::prelude::*;
use vstd::string::*;

use crate::text::{
    chars_of_str, insert_sorted, is_white_space, is_white_space_char, lemma_lex_irreflexive,
    lemma_lex_trichotomy, lex_lt, split_words, string_from_chars, strictly_sorted, strs,
    words_of,
};

verus! {

/// The reserved marker character that introduces a hashtag.
pub const MARKER: char = '#';

/// What `str::to_lowercase` returns for a string.
pub uninterp spec fn lower_of(s: Seq<char>) -> Seq<char>;

/// Relies on `str::to_lowercase`: the result depends on the characters alone.
#[verifier::external_body]
fn lowercase(s: &str) -> (r: String)
    ensures
        r@ == lower_of(s@),
{
    s.to_lowercase()
}

/// `s` without the marker character.
pub open spec fn strip_marker(s: Seq<char>) -> Seq<char>
    decreases s.len(),
{
    if s.len() == 0 {
        s
    } else if s.last() == MARKER {
        strip_marker(s.drop_last())
    } else {
        strip_marker(s.drop_last()).push(s.last())
    }
}

pub open spec fn trim_start(s: Seq<char>) -> Seq<char>
    decreases s.len(),
{
    if s.len() > 0 && is_white_space(s[0]) {
        trim_start(s.skip(1))
    } else {
        s
    }
}

pub open spec fn trim_end(s: Seq<char>) -> Seq<char>
    decreases s.len(),
{
    if s.len() > 0 && is_white_space(s.last()) {
        trim_end(s.drop_last())
    } else {
        s
    }
}

/// `s` without leading and trailing whitespace.
pub open spec fn trim(s: Seq<char>) -> Seq<char> {
    trim_end(trim_start(s))
}

/// The canonical tag of one whitespace-separated word, if it has one: the word lowercased,
/// without marker, trimmed, and lowercased once more; words that end up empty have none.
pub open spec fn word_tag(w: Seq<char>) -> Option<Seq<char>> {
    let c = trim(strip_marker(lower_of(w)));
    if c.len() > 0 && lower_of(c).len() > 0 {
        Some(lower_of(c))
    } else {
        None
    }
}

/// The tags of the first `k` words of `ws`.
pub open spec fn tags_of_words(ws: Seq<Seq<char>>, k: int) -> Set<Seq<char>> {
    Set::new(|t: Seq<char>| exists|j: int| 0 <= j < k && word_tag(#[trigger] ws[j]) == Some(t))
}

/// The tags of the words of the first `i` inputs.
pub open spec fn tags_of_inputs(ins: Seq<Seq<char>>, i: int) -> Set<Seq<char>> {
    Set::new(
        |t: Seq<char>|
            exists|j: int|
                0 <= j < i && #[trigger] tags_of_words(split_words(ins[j]), split_words(
                    ins[j],
                ).len() as int).contains(t),
    )
}

/// The set of canonical tags that a list of raw tag inputs stands for.
pub open spec fn canonical_tags(ins: Seq<Seq<char>>) -> Set<Seq<char>> {
    tags_of_inputs(ins, ins.len() as int)
}

pub open spec fn views_of_strs(v: Seq<&str>) -> Seq<Seq<char>> {
    v.map_values(|s: &str| s@)
}

fn remove_marker(s: &Vec<char>) -> (r: Vec<char>)
    ensures
        r@ == strip_marker(s@),
{
    let mut r: Vec<char> = Vec::new();
    let mut i: usize = 0;
    while i < s.len()
        invariant
            i <= s@.len(),
            r@ == strip_marker(s@.take(i as int)),
        decreases s@.len() - i,
    {
        assert(s@.take(i + 1).drop_last() == s@.take(i as int));
        if s[i] != MARKER {
            r.push(s[i]);
        }
        i = i + 1;
    }
    assert(s@.take(s@.len() as int) == s@);
    r
}

proof fn lemma_trim_start_skip(s: Seq<char>, i: int)
    requires
        0 <= i < s.len(),
        is_white_space(s[i]),
    ensures
        trim_start(s.skip(i)) == trim_start(s.skip(i + 1)),
{
    assert(s.skip(i).skip(1) == s.skip(i + 1));
}

proof fn lemma_trim_end_take(s: Seq<char>, j: int)
    requires
        0 < j <= s.len(),
        is_white_space(s[j - 1]),
    ensures
        trim_end(s.take(j)) == trim_end(s.take(j - 1)),
{
    assert(s.take(j).drop_last() == s.take(j - 1));
}

fn trim_chars(s: &Vec<char>) -> (r: Vec<char>)
    ensures
        r@ == trim(s@),
{
    let n = s.len();
    let mut i: usize = 0;
    assert(s@.skip(0) == s@);
    while i < n && is_white_space_char(s[i])
        invariant
            n == s@.len(),
            i <= n,
            trim_start(s@) == trim_start(s@.skip(i as int)),
        decreases n - i,
    {
        proof {
            lemma_trim_start_skip(s@, i as int);
        }
        i = i + 1;
    }
    let ghost mid = s@.skip(i as int);
    assert(trim_start(s@) == mid);
    let mut j: usize = n;
    assert(mid.take(mid.len() as int) == mid);
    while j > i && is_white_space_char(s[j - 1])
        invariant
            n == s@.len(),
            i <= j <= n,
            mid == s@.skip(i as int),
            trim_end(mid) == trim_end(mid.take(j - i)),
        decreases j,
    {
        proof {
            lemma_trim_end_take(mid, j - i);
        }
        j = j - 1;
    }
    let mut r: Vec<char> = Vec::new();
    let mut k: usize = i;
    while k < j
        invariant
            i <= k <= j <= n,
            n == s@.len(),
            r@ == s@.subrange(i as int, k as int),
        decreases j - k,
    {
        r.push(s[k]);
        assert(s@.subrange(i as int, k + 1) == s@.subrange(i as int, k as int).push(s@[k as int]));
        k = k + 1;
    }
    assert(mid.take(j - i) == s@.subrange(i as int, j as int));
    r
}

/// The tag of one word, as `word_tag` says.
fn tag_of_word(w: &Vec<char>) -> (r: Option<String>)
    ensures
        match r {
            Some(t) => word_tag(w@) == Some(t@),
            None => word_tag(w@) is None,
        },
{
    let word = string_from_chars(w);
    let lowered = lowercase(word.as_str());
    let stripped = remove_marker(&chars_of_str(lowered.as_str()));
    let trimmed = trim_chars(&stripped);
    if trimmed.len() == 0 {
        return None;
    }
    let tag = lowercase(string_from_chars(&trimmed).as_str());
    if tag.as_str().unicode_len() == 0 {
        return None;
    }
    Some(tag)
}

/// Canonicalises raw tag input: splits at whitespace, lowercases, removes the marker
/// character, trims, drops what is left empty, lowercases again, sorts and removes duplicates.
pub fn prepare_tag_list(tags: &[&str]) -> (r: Vec<String>)
    ensures
        strictly_sorted(strs(r@)),
        strs(r@).to_set() == canonical_tags(views_of_strs(tags@)),
{
    let ghost ins = views_of_strs(tags@);
    let mut out: Vec<String> = Vec::new();
    let mut i: usize = 0;
    assert(strs(out@).to_set() =~= tags_of_inputs(ins, 0));
    while i < tags.len()
        invariant
            ins == views_of_strs(tags@),
            i <= tags@.len(),
            strictly_sorted(strs(out@)),
            strs(out@).to_set() == tags_of_inputs(ins, i as int),
        decreases tags@.len() - i,
    {
        let words = words_of(&chars_of_str(tags[i]));
        let ghost ws = split_words(ins[i as int]);
        assert(ins[i as int] == tags@[i as int]@);
        assert(words@.len() == ws.len());
        let mut k: usize = 0;
        assert(strs(out@).to_set() =~= tags_of_inputs(ins, i as int).union(
            tags_of_words(ws, 0),
        ));
        while k < words.len()
            invariant
                ins == views_of_strs(tags@),
                i < tags@.len(),
                k <= words@.len(),
                ws == split_words(ins[i as int]),
                words@.len() == ws.len(),
                forall|x: int| 0 <= x < ws.len() ==> #[trigger] ws[x] == words@[x]@,
                strictly_sorted(strs(out@)),
                strs(out@).to_set() == tags_of_inputs(ins, i as int).union(
                    tags_of_words(ws, k as int),
                ),
            decreases words@.len() - k,
        {
            let ghost before = strs(out@).to_set();
            assert(ws[k as int] == words@[k as int]@);
            match tag_of_word(&words[k]) {
                Some(t) => {
                    let ghost tv = t@;
                    insert_sorted(&mut out, t);
                    assert(tags_of_words(ws, k + 1) =~= tags_of_words(ws, k as int).insert(tv))
                        by {
                        assert(word_tag(ws[k as int]) == Some(tv));
                    }
                    assert(strs(out@).to_set() =~= tags_of_inputs(ins, i as int).union(
                        tags_of_words(ws, k + 1),
                    ));
                },
                None => {
                    assert(tags_of_words(ws, k + 1) =~= tags_of_words(ws, k as int));
                },
            }
            k = k + 1;
        }
        assert(tags_of_inputs(ins, i + 1) =~= tags_of_inputs(ins, i as int).union(
            tags_of_words(ws, ws.len() as int),
        ));
        i = i + 1;
    }
    out
}

proof fn lemma_strip_marker_free(s: Seq<char>)
    ensures
        !strip_marker(s).contains(MARKER),
    decreases s.len(),
{
    if s.len() > 0 {
        lemma_strip_marker_free(s.drop_last());
        let r = strip_marker(s.drop_last());
        if s.last() != MARKER {
            assert forall|i: int| 0 <= i < r.push(s.last()).len() implies r.push(s.last())[i]
                != MARKER by {
                if i < r.len() {
                    assert(r.push(s.last())[i] == r[i]);
                }
            }
        }
    }
}

proof fn lemma_trim_end_sub(s: Seq<char>)
    ensures
        exists|i: int, j: int| 0 <= i <= j <= s.len() && trim_end(s) == s.subrange(i, j),
    decreases s.len(),
{
    if s.len() > 0 && is_white_space(s.last()) {
        lemma_trim_end_sub(s.drop_last());
        let (i, j) = choose|i: int, j: int|
            0 <= i <= j <= s.drop_last().len() && trim_end(s.drop_last()) == s.drop_last().subrange(i, j);
        assert(s.drop_last().subrange(i, j) == s.subrange(i, j));
    } else {
        assert(s.subrange(0, s.len() as int) == s);
    }
}

proof fn lemma_trim_start_sub(s: Seq<char>)
    ensures
        exists|i: int| 0 <= i <= s.len() && trim_start(s) == s.subrange(i, s.len() as int),
    decreases s.len(),
{
    if s.len() > 0 && is_white_space(s[0]) {
        lemma_trim_start_sub(s.skip(1));
        let i = choose|i: int|
            0 <= i <= s.skip(1).len() && trim_start(s.skip(1)) == s.skip(1).subrange(i, s.skip(1).len() as int);
        assert(s.skip(1).subrange(i, s.skip(1).len() as int) == s.subrange(i + 1, s.len() as int));
    } else {
        assert(s.subrange(0, s.len() as int) == s);
    }
}

/// What trimming leaves holds no character that the input did not hold.
proof fn lemma_trim_keeps_free(s: Seq<char>, c: char)
    requires
        !s.contains(c),
    ensures
        !trim(s).contains(c),
{
    lemma_trim_start_sub(s);
    let i = choose|i: int| 0 <= i <= s.len() && trim_start(s) == s.subrange(i, s.len() as int);
    let m = trim_start(s);
    lemma_trim_end_sub(m);
    let (a, b) = choose|a: int, b: int| 0 <= a <= b <= m.len() && trim_end(m) == m.subrange(a, b);
    assert forall|x: int| 0 <= x < trim(s).len() implies trim(s)[x] != c by {
        assert(trim(s)[x] == s[i + a + x]);
    }
}

/// Every canonical tag is non-empty and is the lowercase form of a non-empty text without
/// the marker character; with the ensures of `prepare_tag_list`, its result is therefore
/// strictly ascending (so free of duplicates) and made of such tags only.
pub proof fn lemma_canonical_tag_shape(ins: Seq<Seq<char>>, t: Seq<char>)
    requires
        canonical_tags(ins).contains(t),
    ensures
        t.len() > 0,
        exists|c: Seq<char>| c.len() > 0 && !c.contains(MARKER) && t == lower_of(c),
{
    let j = choose|j: int|
        0 <= j < ins.len() && #[trigger] tags_of_words(split_words(ins[j]), split_words(ins[j]).len() as int).contains(t);
    let ws = split_words(ins[j]);
    let k = choose|k: int| 0 <= k < ws.len() && word_tag(#[trigger] ws[k]) == Some(t);
    let c = trim(strip_marker(lower_of(ws[k])));
    lemma_strip_marker_free(lower_of(ws[k]));
    lemma_trim_keeps_free(strip_marker(lower_of(ws[k])), MARKER);
    assert(c.len() > 0 && !c.contains(MARKER) && t == lower_of(c));
}

proof fn lemma_single_word(t: Seq<char>)
    requires
        t.len() > 0,
        forall|i: int| 0 <= i < t.len() ==> !is_white_space(#[trigger] t[i]),
    ensures
        split_words(t) == seq![t],
    decreases t.len(),
{
    let p = t.drop_last();
    if p.len() == 0 {
        assert(split_words(p) =~= seq![]);
        assert(seq![t.last()] =~= t);
    } else {
        lemma_single_word(p);
        assert(p.last() == t[t.len() - 2]);
        assert(seq![p].drop_last() =~= seq![]);
        assert(p.push(t.last()) == t);
        assert(seq![p].last() == p);
        assert(seq![p].drop_last().push(p.push(t.last())) =~= seq![t]);
    }
}

proof fn lemma_strip_marker_free_fixed(t: Seq<char>)
    requires
        !t.contains(MARKER),
    ensures
        strip_marker(t) == t,
    decreases t.len(),
{
    if t.len() > 0 {
        assert(!t.drop_last().contains(MARKER)) by {
            if t.drop_last().contains(MARKER) {
                let i = choose|i: int| 0 <= i < t.drop_last().len() && t.drop_last()[i] == MARKER;
                assert(t[i] == MARKER);
            }
        }
        lemma_strip_marker_free_fixed(t.drop_last());
        assert(t[t.len() - 1] == t.last());
        assert(t.drop_last().push(t.last()) == t);
    }
}

/// Two strictly ascending sequences with the same elements are equal.
pub proof fn lemma_sorted_unique(a: Seq<Seq<char>>, b: Seq<Seq<char>>)
    requires
        strictly_sorted(a),
        strictly_sorted(b),
        a.to_set() == b.to_set(),
    ensures
        a == b,
    decreases a.len(),
{
    if a.len() == 0 {
        if b.len() > 0 {
            assert(b.to_set().contains(b[0]));
        }
        assert(a =~= b);
    } else {
        assert(a.to_set().contains(a[0]));
        assert(b.len() > 0);
        if a[0] != b[0] {
            let k = choose|k: int| 0 <= k < b.len() && b[k] == a[0];
            assert(b.to_set().contains(b[0]));
            let m = choose|m: int| 0 <= m < a.len() && a[m] == b[0];
            assert(k > 0 && m > 0);
            assert(lex_lt(b[0], b[k]));
            assert(lex_lt(a[0], a[m]));
            lemma_lex_trichotomy(a[0], b[0]);
        }
        let a1 = a.skip(1);
        let b1 = b.skip(1);
        assert(strictly_sorted(a1)) by {
            assert forall|i: int, j: int| 0 <= i < j < a1.len() implies lex_lt(#[trigger] a1[i], #[trigger] a1[j]) by {
                assert(a1[i] == a[i + 1] && a1[j] == a[j + 1]);
            }
        }
        assert(strictly_sorted(b1)) by {
            assert forall|i: int, j: int| 0 <= i < j < b1.len() implies lex_lt(#[trigger] b1[i], #[trigger] b1[j]) by {
                assert(b1[i] == b[i + 1] && b1[j] == b[j + 1]);
            }
        }
        assert(a1.to_set() =~= b1.to_set()) by {
            assert forall|x| a1.to_set().contains(x) implies b1.to_set().contains(x) by {
                let i = choose|i: int| 0 <= i < a1.len() && a1[i] == x;
                assert(lex_lt(a[0], a[i + 1]));
                lemma_lex_irreflexive(a[0]);
                assert(a.to_set().contains(x));
                let j = choose|j: int| 0 <= j < b.len() && b[j] == x;
                assert(j != 0);
                assert(b1[j - 1] == x);
            }
            assert forall|x| b1.to_set().contains(x) implies a1.to_set().contains(x) by {
                let i = choose|i: int| 0 <= i < b1.len() && b1[i] == x;
                assert(lex_lt(b[0], b[i + 1]));
                lemma_lex_irreflexive(b[0]);
                assert(b.to_set().contains(x));
                let j = choose|j: int| 0 <= j < a.len() && a[j] == x;
                assert(j != 0);
                assert(a1[j - 1] == x);
            }
        }
        lemma_sorted_unique(a1, b1);
        assert(a =~= seq![a[0]] + a1);
        assert(b =~= seq![b[0]] + b1);
    }
}

/// Normalizing canonical tags again changes nothing, for tags that lowercasing leaves as
/// they are and that hold neither whitespace nor the marker character: `first` is the
/// result of normalizing `raw` and `second` that of normalizing `first`, as
/// `prepare_tag_list` states them.
pub proof fn lemma_normalize_idempotent(
    raw: Seq<Seq<char>>,
    first: Seq<Seq<char>>,
    second: Seq<Seq<char>>,
)
    requires
        strictly_sorted(first),
        first.to_set() == canonical_tags(raw),
        strictly_sorted(second),
        second.to_set() == canonical_tags(first),
        forall|k: int|
            0 <= k < first.len() ==> lower_of(#[trigger] first[k]) == first[k] && !first[k].contains(
                MARKER,
            ) && (forall|i: int| 0 <= i < first[k].len() ==> !is_white_space(first[k][i])),
    ensures
        second == first,
{
    assert forall|k: int| 0 <= k < first.len() implies word_tag(#[trigger] first[k]) == Some(first[k])
        && split_words(first[k]) == seq![first[k]] by {
        let t = first[k];
        assert(first.to_set().contains(t));
        lemma_canonical_tag_shape(raw, t);
        lemma_single_word(t);
        lemma_strip_marker_free_fixed(t);
        assert(trim_start(t) == t);
        assert(trim_end(t) == t);
    }
    assert(canonical_tags(first) =~= first.to_set()) by {
        assert forall|t| canonical_tags(first).contains(t) implies first.to_set().contains(t) by {
            let j = choose|j: int|
                0 <= j < first.len() && #[trigger] tags_of_words(split_words(first[j]), split_words(first[j]).len() as int).contains(t);
            let ws = split_words(first[j]);
            let x = choose|x: int| 0 <= x < ws.len() && word_tag(#[trigger] ws[x]) == Some(t);
            assert(ws[x] == first[j]);
        }
        assert forall|t| first.to_set().contains(t) implies canonical_tags(first).contains(t) by {
            let j = choose|j: int| 0 <= j < first.len() && first[j] == t;
            let ws = split_words(first[j]);
            assert(ws[0] == first[j]);
            assert(tags_of_words(ws, ws.len() as int).contains(t));
        }
    }
    lemma_sorted_unique(second, first);
}

/// What a change of a tag list adds and deletes.
pub struct ChangeSet<T> {
    pub added: Vec<T>,
    pub deleted: Vec<T>,
}

/// The elements of `a` that `b` does not hold, in the order of `a`.
pub open spec fn minus(a: Seq<Seq<char>>, b: Seq<Seq<char>>) -> Seq<Seq<char>>
    decreases a.len(),
{
    if a.len() == 0 {
        seq![]
    } else if b.contains(a.last()) {
        minus(a.drop_last(), b)
    } else {
        minus(a.drop_last(), b).push(a.last())
    }
}

pub proof fn lemma_minus_contains(a: Seq<Seq<char>>, b: Seq<Seq<char>>, x: Seq<char>)
    ensures
        minus(a, b).contains(x) <==> a.contains(x) && !b.contains(x),
    decreases a.len(),
{
    if a.len() > 0 {
        lemma_minus_contains(a.drop_last(), b, x);
        if a.drop_last().contains(x) {
            let k = choose|k: int| 0 <= k < a.drop_last().len() && a.drop_last()[k] == x;
            assert(a[k] == x);
        }
        if a.contains(x) && x != a.last() {
            let k = choose|k: int| 0 <= k < a.len() && a[k] == x;
            assert(a.drop_last()[k] == x);
        }
        let m = minus(a.drop_last(), b);
        if !b.contains(a.last()) {
            if m.push(a.last()).contains(x) && x != a.last() {
                let k = choose|k: int| 0 <= k < m.push(a.last()).len() && m.push(a.last())[k] == x;
                assert(m[k] == x);
            }
            if m.contains(x) {
                let k = choose|k: int| 0 <= k < m.len() && m[k] == x;
                assert(m.push(a.last())[k] == x);
            }
            assert(m.push(a.last())[m.len() as int] == a.last());
        }
        assert(a[a.len() - 1] == a.last());
    }
}

/// Whether `v` holds `t`.
pub fn contains_tag(v: &[String], t: &String) -> (r: bool)
    ensures
        r == strs(v@).contains(t@),
{
    let mut i: usize = 0;
    while i < v.len()
        invariant
            i <= v@.len(),
            forall|k: int| 0 <= k < i ==> (#[trigger] v@[k])@ != t@,
        decreases v@.len() - i,
    {
        if v[i] == *t {
            assert(strs(v@)[i as int] == t@);
            return true;
        }
        i = i + 1;
    }
    assert(!strs(v@).contains(t@)) by {
        if strs(v@).contains(t@) {
            let k = choose|k: int| 0 <= k < strs(v@).len() && strs(v@)[k] == t@;
            assert(v@[k]@ == t@);
        }
    }
    false
}

/// The elements of `a` that `b` does not hold, in the order of `a`.
fn difference(a: &[String], b: &[String]) -> (r: Vec<String>)
    ensures
        strs(r@) == minus(strs(a@), strs(b@)),
{
    let mut r: Vec<String> = Vec::new();
    let mut i: usize = 0;
    while i < a.len()
        invariant
            i <= a@.len(),
            strs(r@) == minus(strs(a@).take(i as int), strs(b@)),
        decreases a@.len() - i,
    {
        assert(strs(a@).take(i + 1).drop_last() == strs(a@).take(i as int));
        assert(strs(a@).take(i + 1).last() == a@[i as int]@);
        if !contains_tag(b, &a[i]) {
            let ghost before = strs(r@);
            r.push(a[i].clone());
            assert(strs(r@) == before.push(a@[i as int]@));
        }
        i = i + 1;
    }
    assert(strs(a@).take(a@.len() as int) == strs(a@));
    r
}

/// The tags that `new` adds to `old` and those it deletes, each in its list's order.
pub fn tags_diff(old: &[String], new: &[String]) -> (r: ChangeSet<String>)
    ensures
        strs(r.added@) == minus(strs(new@), strs(old@)),
        strs(r.deleted@) == minus(strs(old@), strs(new@)),
{
    let added = difference(new, old);
    let deleted = difference(old, new);
    ChangeSet { added, deleted }
}

/// A diff adds nothing that was there and deletes nothing that stays; and the old tags,
/// less the deleted ones, with the added ones make up the new tags.
pub proof fn lemma_tags_diff_laws(old: Seq<Seq<char>>, new: Seq<Seq<char>>)
    ensures
        forall|x: Seq<char>| #[trigger] minus(new, old).contains(x) ==> !old.contains(x),
        forall|x: Seq<char>| #[trigger] minus(old, new).contains(x) ==> !new.contains(x),
        old.to_set().difference(minus(old, new).to_set()).union(minus(new, old).to_set())
            == new.to_set(),
{
    assert forall|x: Seq<char>| #[trigger] minus(new, old).contains(x) implies !old.contains(
        x,
    ) by {
        lemma_minus_contains(new, old, x);
    }
    assert forall|x: Seq<char>| #[trigger] minus(old, new).contains(x) implies !new.contains(
        x,
    ) by {
        lemma_minus_contains(old, new, x);
    }
    assert(old.to_set().difference(minus(old, new).to_set()).union(minus(new, old).to_set())
        =~= new.to_set()) by {
        assert forall|x: Seq<char>| true implies (old.to_set().difference(
            minus(old, new).to_set(),
        ).union(minus(new, old).to_set()).contains(x) == new.to_set().contains(x)) by {
            lemma_minus_contains(old, new, x);
            lemma_minus_contains(new, old, x);
        }
    }
}

} // verus!
