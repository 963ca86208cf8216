use vstd::prelude::*;
use vstd::string::*;

verus! {

/// The characters with the Unicode `White_Space` property.
pub open spec fn is_white_space(c: char) -> bool {
    let u = c as u32;
    (0x09 <= u <= 0x0d) || u == 0x20 || u == 0x85 || u == 0xa0 || u == 0x1680 || (0x2000 <= u
        <= 0x200a) || u == 0x2028 || u == 0x2029 || u == 0x202f || u == 0x205f || u == 0x3000
}

pub fn is_white_space_char(c: char) -> (r: bool)
    ensures
        r == is_white_space(c),
{
    let u = c as u32;
    (0x09 <= u && u <= 0x0d) || u == 0x20 || u == 0x85 || u == 0xa0 || u == 0x1680 || (0x2000
        <= u && u <= 0x200a) || u == 0x2028 || u == 0x2029 || u == 0x202f || u == 0x205f || u
        == 0x3000
}

/// The maximal runs of non-whitespace characters of `s`, in order.
pub open spec fn split_words(s: Seq<char>) -> Seq<Seq<char>>
    decreases s.len(),
{
    if s.len() == 0 {
        seq![]
    } else {
        let p = s.drop_last();
        let c = s.last();
        let w = split_words(p);
        if is_white_space(c) {
            w
        } else if p.len() > 0 && !is_white_space(p.last()) {
            w.drop_last().push(w.last().push(c))
        } else {
            w.push(seq![c])
        }
    }
}

pub open spec fn chars_of(v: Seq<Vec<char>>) -> Seq<Seq<char>> {
    v.map_values(|w: Vec<char>| w@)
}

pub open spec fn strs(v: Seq<String>) -> Seq<Seq<char>> {
    v.map_values(|s: String| s@)
}

/// The characters of `s`.
pub fn chars_of_str(s: &str) -> (r: Vec<char>)
    ensures
        r@ == s@,
{
    let n = s.unicode_len();
    let mut r: Vec<char> = Vec::new();
    let mut i: usize = 0;
    while i < n
        invariant
            n == s@.len(),
            i <= n,
            r@ == s@.take(i as int),
        decreases n - i,
    {
        let c = s.get_char(i);
        r.push(c);
        assert(s@.take(i + 1) == s@.take(i as int).push(c));
        i = i + 1;
    }
    assert(s@.take(n as int) == s@);
    r
}

/// Relies on `String`'s `FromIterator<&char>`: the characters, collected in order.
#[verifier::external_body]
pub(crate) fn string_from_chars(v: &Vec<char>) -> (r: String)
    ensures
        r@ == v@,
{
    v.iter().collect()
}

/// Splits `s` at whitespace into its words.
pub fn words_of(s: &Vec<char>) -> (r: Vec<Vec<char>>)
    ensures
        chars_of(r@) == split_words(s@),
{
    let n = s.len();
    let mut out: Vec<Vec<char>> = Vec::new();
    let mut cur: Vec<char> = Vec::new();
    let mut i: usize = 0;
    while i < n
        invariant
            n == s@.len(),
            i <= n,
            split_words(s@.take(i as int)) == if cur@.len() > 0 {
                chars_of(out@).push(cur@)
            } else {
                chars_of(out@)
            },
            cur@.len() > 0 <==> (i > 0 && !is_white_space(s@[i - 1])),
        decreases n - i,
    {
        let c = s[i];
        let ghost pre = s@.take(i as int);
        assert(s@.take(i + 1).drop_last() == pre);
        assert(s@.take(i + 1).last() == c);
        if is_white_space_char(c) {
            if cur.len() > 0 {
                let mut w: Vec<char> = Vec::new();
                core::mem::swap(&mut w, &mut cur);
                let ghost old_out = out@;
                out.push(w);
                assert(chars_of(out@) == chars_of(old_out).push(w@));
            }
        } else {
            let ghost old_cur = cur@;
            let ghost acc = chars_of(out@);
            let had_word = cur.len() > 0;
            cur.push(c);
            if had_word {
                assert(pre.len() > 0 && pre.last() == s@[i - 1]);
                assert(acc.push(old_cur).drop_last() == acc);
                assert(split_words(s@.take(i + 1)) == acc.push(cur@));
            } else {
                assert(split_words(s@.take(i + 1)) == acc.push(seq![c]));
                assert(cur@ == seq![c]);
            }
        }
        i = i + 1;
    }
    assert(s@.take(n as int) == s@);
    if cur.len() > 0 {
        let ghost old_out = out@;
        let ghost cv = cur@;
        out.push(cur);
        assert(chars_of(out@) == chars_of(old_out).push(cv));
    }
    out
}

/// Lexicographic order by code point, which is the order of `str`.
pub open spec fn lex_lt(a: Seq<char>, b: Seq<char>) -> bool
    decreases a.len(),
{
    if a.len() == 0 {
        b.len() > 0
    } else if b.len() == 0 {
        false
    } else if a[0] != b[0] {
        a[0] < b[0]
    } else {
        lex_lt(a.skip(1), b.skip(1))
    }
}

/// Strictly ascending, hence free of duplicates.
pub open spec fn strictly_sorted(s: Seq<Seq<char>>) -> bool {
    forall|i: int, j: int| 0 <= i < j < s.len() ==> lex_lt(#[trigger] s[i], #[trigger] s[j])
}

pub proof fn lemma_lex_irreflexive(a: Seq<char>)
    ensures
        !lex_lt(a, a),
    decreases a.len(),
{
    if a.len() > 0 {
        lemma_lex_irreflexive(a.skip(1));
    }
}

pub proof fn lemma_lex_trichotomy(a: Seq<char>, b: Seq<char>)
    ensures
        lex_lt(a, b) || lex_lt(b, a) || a == b,
        !(lex_lt(a, b) && lex_lt(b, a)),
    decreases a.len(),
{
    if a.len() > 0 && b.len() > 0 {
        if a[0] == b[0] {
            lemma_lex_trichotomy(a.skip(1), b.skip(1));
            if a.skip(1) == b.skip(1) {
                assert(a == seq![a[0]] + a.skip(1));
                assert(b == seq![b[0]] + b.skip(1));
            }
        }
    } else if a.len() == 0 && b.len() == 0 {
        assert(a == b);
    }
}

pub proof fn lemma_lex_transitive(a: Seq<char>, b: Seq<char>, c: Seq<char>)
    requires
        lex_lt(a, b),
        lex_lt(b, c),
    ensures
        lex_lt(a, c),
    decreases a.len(),
{
    if a.len() > 0 && a[0] == b[0] && b[0] == c[0] {
        lemma_lex_transitive(a.skip(1), b.skip(1), c.skip(1));
    }
}

/// Compares two strings by the order of `lex_lt`.
pub fn lex_less(a: &str, b: &str) -> (r: bool)
    ensures
        r == lex_lt(a@, b@),
{
    let n = a.unicode_len();
    let m = b.unicode_len();
    let mut i: usize = 0;
    assert(a@.skip(0) == a@ && b@.skip(0) == b@);
    while i < n && i < m
        invariant
            n == a@.len(),
            m == b@.len(),
            i <= n,
            i <= m,
            lex_lt(a@, b@) == lex_lt(a@.skip(i as int), b@.skip(i as int)),
        decreases n - i,
    {
        let x = a.get_char(i);
        let y = b.get_char(i);
        assert(a@.skip(i as int)[0] == x && b@.skip(i as int)[0] == y);
        if x != y {
            return x < y;
        }
        assert(a@.skip(i as int).skip(1) == a@.skip(i + 1));
        assert(b@.skip(i as int).skip(1) == b@.skip(i + 1));
        i = i + 1;
    }
    i < m && i == n
}

/// Inserts `t` into the strictly ascending `set`, unless it holds it already.
pub fn insert_sorted(set: &mut Vec<String>, t: String)
    requires
        strictly_sorted(strs(old(set)@)),
    ensures
        strictly_sorted(strs(final(set)@)),
        strs(final(set)@).to_set() == strs(old(set)@).to_set().insert(t@),
{
    let ghost s0 = strs(set@);
    let n = set.len();
    let mut j: usize = 0;
    while j < n && lex_less(set[j].as_str(), t.as_str())
        invariant
            n == set@.len(),
            j <= n,
            s0 == strs(set@),
            forall|k: int| 0 <= k < j ==> lex_lt(#[trigger] s0[k], t@),
        decreases n - j,
    {
        j = j + 1;
    }
    if j < n && set[j] == t {
        assert(s0[j as int] == t@);
        assert(s0.to_set().insert(t@) =~= s0.to_set());
        return;
    }
    proof {
        if j < n {
            lemma_lex_trichotomy(s0[j as int], t@);
        }
    }
    set.insert(j, t);
    let ghost s1 = strs(set@);
    assert(s1 == s0.insert(j as int, t@));
    assert forall|a: int, b: int| 0 <= a < b < s1.len() implies lex_lt(
        #[trigger] s1[a],
        #[trigger] s1[b],
    ) by {
        if b < j {
        } else if b == j {
        } else if a < j {
            lemma_lex_transitive(s0[a], t@, s0[j as int]);
            if b - 1 > j {
                lemma_lex_transitive(s0[a], s0[j as int], s0[b - 1]);
            }
        } else if a == j {
            if b - 1 > j {
                lemma_lex_transitive(t@, s0[j as int], s0[b - 1]);
            }
        } else {
        }
    }
    assert(s1.to_set() =~= s0.to_set().insert(t@)) by {
        assert forall|x| s1.to_set().contains(x) implies s0.to_set().insert(t@).contains(x) by {
            let k = choose|k: int| 0 <= k < s1.len() && s1[k] == x;
            if k < j {
                assert(s0[k] == x);
            } else if k > j {
                assert(s0[k - 1] == x);
            }
        }
        assert forall|x| s0.to_set().insert(t@).contains(x) implies s1.to_set().contains(x) by {
            if x == t@ {
                assert(s1[j as int] == x);
            } else {
                let k = choose|k: int| 0 <= k < s0.len() && s0[k] == x;
                if k < j {
                    assert(s1[k] == x);
                } else {
                    assert(s1[k + 1] == x);
                }
            }
        }
    }
}

} // verus!
