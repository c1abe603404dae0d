//! Lexicographic ordering of names and a sort that makes interactive prompts
//! deterministic and reproducible for a given interface set.

use vstd::prelude::*;
use vstd::string::StrSliceExecFns;

verus! {

/// Lexicographic order on text, by Unicode scalar value. This is the order
/// in which candidate interface names are presented.
pub open spec fn lex_le(a: Seq<char>, b: Seq<char>) -> bool
    decreases a.len(),
{
    if a.len() == 0 {
        true
    } else if b.len() == 0 {
        false
    } else if (a[0] as u32) < (b[0] as u32) {
        true
    } else if (a[0] as u32) > (b[0] as u32) {
        false
    } else {
        lex_le(a.drop_first(), b.drop_first())
    }
}

/// `x` placed before the first entry of the sorted sequence `s` that is not
/// below it.
pub open spec fn insert_sorted(x: Seq<char>, s: Seq<Seq<char>>) -> Seq<Seq<char>>
    decreases s.len(),
{
    if s.len() == 0 {
        seq![x]
    } else if lex_le(x, s[0]) {
        seq![x] + s
    } else {
        seq![s[0]] + insert_sorted(x, s.drop_first())
    }
}

/// Insertion sort by `lex_le`.
pub open spec fn sort_names(s: Seq<Seq<char>>) -> Seq<Seq<char>>
    decreases s.len(),
{
    if s.len() == 0 {
        s
    } else {
        insert_sorted(s[0], sort_names(s.drop_first()))
    }
}

/// The views of a sequence of strings.
pub open spec fn views(s: Seq<String>) -> Seq<Seq<char>> {
    s.map_values(|x: String| x@)
}

proof fn lemma_insert_sorted_len(x: Seq<char>, s: Seq<Seq<char>>)
    ensures
        insert_sorted(x, s).len() == s.len() + 1,
    decreases s.len(),
{
    if s.len() == 0 {
    } else if lex_le(x, s[0]) {
    } else {
        lemma_insert_sorted_len(x, s.drop_first());
    }
}

pub proof fn lemma_sort_names_len(s: Seq<Seq<char>>)
    ensures
        sort_names(s).len() == s.len(),
    decreases s.len(),
{
    if s.len() == 0 {
    } else {
        lemma_sort_names_len(s.drop_first());
        lemma_insert_sorted_len(s[0], sort_names(s.drop_first()));
    }
}

proof fn lemma_insert_sorted_contains(x: Seq<char>, s: Seq<Seq<char>>, y: Seq<char>)
    ensures
        insert_sorted(x, s).contains(y) <==> (y == x || s.contains(y)),
    decreases s.len(),
{
    if s.len() == 0 {
        assert(insert_sorted(x, s) =~= seq![x]);
        if y == x {
            assert(insert_sorted(x, s)[0] == y);
        }
    } else if lex_le(x, s[0]) {
        let r = seq![x] + s;
        if y == x {
            assert(r[0] == y);
        }
        if s.contains(y) {
            let i = choose|i: int| 0 <= i < s.len() && s[i] == y;
            assert(r[i + 1] == y);
        }
        if r.contains(y) {
            let i = choose|i: int| 0 <= i < r.len() && r[i] == y;
            if i > 0 {
                assert(s[i - 1] == y);
            }
        }
    } else {
        lemma_insert_sorted_contains(x, s.drop_first(), y);
        let rest = insert_sorted(x, s.drop_first());
        let r = seq![s[0]] + rest;
        if y == x || s.contains(y) {
            if y == s[0] {
                assert(r[0] == y);
            } else {
                if s.contains(y) && y != s[0] {
                    let i = choose|i: int| 0 <= i < s.len() && s[i] == y;
                    assert(s.drop_first()[i - 1] == y);
                }
                let j = choose|j: int| 0 <= j < rest.len() && rest[j] == y;
                assert(r[j + 1] == y);
            }
        }
        if r.contains(y) {
            let i = choose|i: int| 0 <= i < r.len() && r[i] == y;
            if i == 0 {
                assert(s[0] == y);
            } else {
                assert(rest[i - 1] == y);
                if !(y == x) {
                    let k = choose|k: int| 0 <= k < s.drop_first().len() && s.drop_first()[k] == y;
                    assert(s[k + 1] == y);
                }
            }
        }
    }
}

pub proof fn lemma_sort_names_contains(s: Seq<Seq<char>>, y: Seq<char>)
    ensures
        sort_names(s).contains(y) <==> s.contains(y),
    decreases s.len(),
{
    if s.len() == 0 {
    } else {
        lemma_sort_names_contains(s.drop_first(), y);
        lemma_insert_sorted_contains(s[0], sort_names(s.drop_first()), y);
        if s.contains(y) && y != s[0] {
            let i = choose|i: int| 0 <= i < s.len() && s[i] == y;
            assert(s.drop_first()[i - 1] == y);
        }
        if s.drop_first().contains(y) {
            let i = choose|i: int| 0 <= i < s.drop_first().len() && s.drop_first()[i] == y;
            assert(s[i + 1] == y);
        }
        if y == s[0] {
            assert(s.contains(y)) by {
                assert(s[0] == y);
            }
        }
    }
}

/// Every entry stands at or below every later one.
pub open spec fn sorted_by_lex(s: Seq<Seq<char>>) -> bool {
    forall|i: int, j: int| 0 <= i < j < s.len() ==> lex_le(#[trigger] s[i], #[trigger] s[j])
}

/// Any two names are ordered one way or the other.
pub proof fn lemma_lex_le_total(a: Seq<char>, b: Seq<char>)
    ensures
        lex_le(a, b) || lex_le(b, a),
    decreases a.len(),
{
    if a.len() == 0 {
    } else if b.len() == 0 {
    } else if (a[0] as u32) == (b[0] as u32) {
        lemma_lex_le_total(a.drop_first(), b.drop_first());
    }
}

/// Lexicographic order is transitive.
pub proof fn lemma_lex_le_trans(a: Seq<char>, b: Seq<char>, c: Seq<char>)
    requires
        lex_le(a, b),
        lex_le(b, c),
    ensures
        lex_le(a, c),
    decreases a.len(),
{
    if a.len() == 0 {
    } else {
        assert(b.len() > 0);
        assert(c.len() > 0);
        if (a[0] as u32) == (b[0] as u32) && (b[0] as u32) == (c[0] as u32) {
            lemma_lex_le_trans(a.drop_first(), b.drop_first(), c.drop_first());
        }
    }
}

proof fn lemma_insert_sorted_keeps_sorted(x: Seq<char>, s: Seq<Seq<char>>)
    requires
        sorted_by_lex(s),
    ensures
        sorted_by_lex(insert_sorted(x, s)),
    decreases s.len(),
{
    if s.len() == 0 {
    } else if lex_le(x, s[0]) {
        let r = seq![x] + s;
        assert forall|i: int, j: int| 0 <= i < j < r.len() implies lex_le(
            #[trigger] r[i],
            #[trigger] r[j],
        ) by {
            if i == 0 && j > 1 {
                lemma_lex_le_trans(x, s[0], s[j - 1]);
            }
        }
    } else {
        lemma_lex_le_total(x, s[0]);
        assert(sorted_by_lex(s.drop_first()));
        lemma_insert_sorted_keeps_sorted(x, s.drop_first());
        let rest = insert_sorted(x, s.drop_first());
        let r = seq![s[0]] + rest;
        assert forall|i: int, j: int| 0 <= i < j < r.len() implies lex_le(
            #[trigger] r[i],
            #[trigger] r[j],
        ) by {
            if i == 0 {
                assert(rest.contains(rest[j - 1]));
                lemma_insert_sorted_contains(x, s.drop_first(), rest[j - 1]);
                if rest[j - 1] == x {
                } else {
                    let k = choose|k: int|
                        0 <= k < s.drop_first().len() && s.drop_first()[k] == rest[j - 1];
                    assert(s[k + 1] == rest[j - 1]);
                    assert(lex_le(s[0], s[k + 1]));
                }
            }
        }
    }
}

/// What the sort yields is lexicographically ordered: together with
/// `lemma_sort_names_contains` and `lemma_sort_names_len`, the presented
/// prompt order is deterministic for a given interface set.
pub proof fn lemma_sort_names_sorted(s: Seq<Seq<char>>)
    ensures
        sorted_by_lex(sort_names(s)),
    decreases s.len(),
{
    if s.len() == 0 {
    } else {
        lemma_sort_names_sorted(s.drop_first());
        lemma_insert_sorted_keeps_sorted(s[0], sort_names(s.drop_first()));
    }
}

/// If the first `i` characters agree, the order is decided by the rest.
proof fn lemma_lex_le_skip(a: Seq<char>, b: Seq<char>, i: int)
    requires
        0 <= i <= a.len(),
        i <= b.len(),
        forall|k: int| 0 <= k < i ==> a[k] == b[k],
    ensures
        lex_le(a, b) == lex_le(a.skip(i), b.skip(i)),
    decreases i,
{
    if i == 0 {
        assert(a.skip(0) =~= a);
        assert(b.skip(0) =~= b);
    } else {
        assert(a[0] == b[0]);
        assert(a.drop_first() =~= a.skip(1));
        assert(b.drop_first() =~= b.skip(1));
        lemma_lex_le_skip(a.drop_first(), b.drop_first(), i - 1);
        assert(a.drop_first().skip(i - 1) =~= a.skip(i));
        assert(b.drop_first().skip(i - 1) =~= b.skip(i));
    }
}

/// Decides `lex_le` on two strings.
fn lex_le_strings(a: &String, b: &String) -> (r: bool)
    ensures
        r == lex_le(a@, b@),
{
    let a_len = a.as_str().unicode_len();
    let b_len = b.as_str().unicode_len();
    let mut i: usize = 0;
    while i < a_len && i < b_len
        invariant
            0 <= i <= a_len,
            i <= b_len,
            a_len == a@.len(),
            b_len == b@.len(),
            forall|k: int| 0 <= k < i ==> a@[k] == b@[k],
        decreases a_len - i,
    {
        let ca: u32 = a.as_str().get_char(i) as u32;
        let cb: u32 = b.as_str().get_char(i) as u32;
        if ca < cb {
            proof {
                lemma_lex_le_skip(a@, b@, i as int);
            }
            return true;
        }
        if ca > cb {
            proof {
                lemma_lex_le_skip(a@, b@, i as int);
            }
            return false;
        }
        i += 1;
    }
    proof {
        lemma_lex_le_skip(a@, b@, i as int);
    }
    i == a_len
}

/// Where the scan of `insert_string` stops, the spec insertion splits there.
proof fn lemma_insert_sorted_split(x: Seq<char>, s: Seq<Seq<char>>, i: int)
    requires
        0 <= i <= s.len(),
        forall|k: int| 0 <= k < i ==> !lex_le(x, #[trigger] s[k]),
        i == s.len() || lex_le(x, s[i]),
    ensures
        insert_sorted(x, s) == s.subrange(0, i) + seq![x] + s.subrange(i, s.len() as int),
    decreases i,
{
    if i == 0 {
        if s.len() == 0 {
            assert(insert_sorted(x, s) =~= s.subrange(0, 0) + seq![x] + s.subrange(0, 0));
        } else {
            assert(insert_sorted(x, s) =~= s.subrange(0, 0) + seq![x] + s.subrange(
                0,
                s.len() as int,
            ));
        }
    } else {
        lemma_insert_sorted_split(x, s.drop_first(), i - 1);
        assert(s.drop_first().subrange(0, i - 1) =~= s.subrange(1, i));
        assert(s.drop_first().subrange(i - 1, s.drop_first().len() as int) =~= s.subrange(
            i,
            s.len() as int,
        ));
        assert(seq![s[0]] + (s.subrange(1, i) + seq![x] + s.subrange(i, s.len() as int))
            =~= s.subrange(0, i) + seq![x] + s.subrange(i, s.len() as int));
    }
}

/// Inserts a string into an already sorted vector, exactly where
/// `insert_sorted` states it.
fn insert_string(x: String, v: Vec<String>) -> (r: Vec<String>)
    ensures
        views(r@) == insert_sorted(x@, views(v@)),
{
    let mut v = v;
    let mut i: usize = 0;
    while i < v.len() && !lex_le_strings(&x, &v[i])
        invariant
            0 <= i <= v@.len(),
            forall|k: int| 0 <= k < i ==> !lex_le(x@, #[trigger] views(v@)[k]),
        decreases v@.len() - i,
    {
        i += 1;
    }
    proof {
        lemma_insert_sorted_split(x@, views(v@), i as int);
    }
    let ghost old_views = views(v@);
    v.insert(i, x);
    proof {
        assert(views(v@) =~= old_views.subrange(0, i as int) + seq![x@] + old_views.subrange(
            i as int,
            old_views.len() as int,
        ));
    }
    v
}

/// Sorts strings by `lex_le`, exactly as `sort_names` states it.
pub fn sort_strings(names: Vec<String>) -> (r: Vec<String>)
    ensures
        views(r@) == sort_names(views(names@)),
    decreases names@.len(),
{
    let ghost orig = names@;
    let mut names = names;
    if names.len() == 0 {
        names
    } else {
        let first = names.remove(0);
        proof {
            assert(views(names@) =~= views(orig).drop_first());
            assert(first@ == views(orig)[0]);
        }
        let sorted = sort_strings(names);
        insert_string(first, sorted)
    }
}

} // verus!
