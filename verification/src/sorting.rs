//! Ordering of texts as `String`'s `Ord` orders them, and a sort by it.
use vstd::prelude::*;
use vstd::multiset::Multiset;

verus! {

/// Lexicographic order of character sequences by code point. This is the
/// order of `String`'s `Ord`, which compares UTF-8 bytes: UTF-8 keeps the
/// order of code points.
pub open spec fn text_le(a: Seq<char>, b: Seq<char>) -> bool
    decreases a.len(),
{
    if a.len() == 0 {
        true
    } else if b.len() == 0 {
        false
    } else if a[0] != b[0] {
        (a[0] as u32) < (b[0] as u32)
    } else {
        text_le(a.drop_first(), b.drop_first())
    }
}

/// The characters of each text.
pub open spec fn texts(v: Seq<String>) -> Seq<Seq<char>> {
    v.map_values(|t: String| t@)
}

/// Whether `s` is in ascending `text_le` order.
pub open spec fn sorted_texts(s: Seq<Seq<char>>) -> bool {
    forall|i: int, j: int| 0 <= i < j < s.len() ==> text_le(#[trigger] s[i], #[trigger] s[j])
}

/// `x` put into `s` after the leading run of elements that are `text_le` it.
pub open spec fn insert_sorted(s: Seq<Seq<char>>, x: Seq<char>) -> Seq<Seq<char>>
    decreases s.len(),
{
    if s.len() == 0 {
        seq![x]
    } else if text_le(s[0], x) {
        seq![s[0]] + insert_sorted(s.drop_first(), x)
    } else {
        seq![x] + s
    }
}

/// `s` sorted by insertion, element by element: a stable sort by `text_le`.
pub open spec fn sort_spec(s: Seq<Seq<char>>) -> Seq<Seq<char>>
    decreases s.len(),
{
    if s.len() == 0 {
        Seq::empty()
    } else {
        insert_sorted(sort_spec(s.drop_last()), s.last())
    }
}

/// `text_le` is total.
pub proof fn lemma_text_le_total(a: Seq<char>, b: Seq<char>)
    ensures
        text_le(a, b) || text_le(b, a),
    decreases a.len(),
{
    if a.len() > 0 && b.len() > 0 {
        if a[0] == b[0] {
            lemma_text_le_total(a.drop_first(), b.drop_first());
        } else {
            vstd::utf8::char_u32_cast(a[0], a[0] as u32);
            vstd::utf8::char_u32_cast(b[0], b[0] as u32);
        }
    }
}

/// `text_le` is transitive.
pub proof fn lemma_text_le_transitive(a: Seq<char>, b: Seq<char>, c: Seq<char>)
    requires
        text_le(a, b),
        text_le(b, c),
    ensures
        text_le(a, c),
    decreases a.len(),
{
    if a.len() > 0 && b.len() > 0 && c.len() > 0 && a[0] == b[0] && b[0] == c[0] {
        lemma_text_le_transitive(a.drop_first(), b.drop_first(), c.drop_first());
    }
}

/// Computes `text_le(a@, b@)`.
pub fn text_le_exec(a: &str, b: &str) -> (r: bool)
    ensures
        r == text_le(a@, b@),
{
    let na = a.unicode_len();
    let nb = b.unicode_len();
    let mut i: usize = 0;
    assert(a@.subrange(0, na as int) =~= a@);
    assert(b@.subrange(0, nb as int) =~= b@);
    while i < na && i < nb
        invariant
            na == a@.len(),
            nb == b@.len(),
            i <= na,
            i <= nb,
            text_le(a@, b@) == text_le(a@.subrange(i as int, na as int), b@.subrange(i as int, nb as int)),
        decreases na - i,
    {
        let ca = a.get_char(i);
        let cb = b.get_char(i);
        let ghost sa = a@.subrange(i as int, na as int);
        let ghost sb = b@.subrange(i as int, nb as int);
        assert(sa[0] == ca && sb[0] == cb);
        if ca != cb {
            return (ca as u32) < (cb as u32);
        }
        assert(sa.drop_first() =~= a@.subrange(i + 1, na as int));
        assert(sb.drop_first() =~= b@.subrange(i + 1, nb as int));
        i = i + 1;
    }
    i == na
}

proof fn lemma_insert_at_first_greater(s: Seq<Seq<char>>, x: Seq<char>, j: int)
    requires
        0 <= j <= s.len(),
        forall|k: int| 0 <= k < j ==> text_le(#[trigger] s[k], x),
        j < s.len() ==> !text_le(s[j], x),
    ensures
        s.insert(j, x) == insert_sorted(s, x),
    decreases s.len(),
{
    if s.len() == 0 {
        assert(s.insert(j, x) =~= seq![x]);
    } else if j == 0 {
        assert(s.insert(j, x) =~= seq![x] + s);
    } else {
        let t = s.drop_first();
        assert forall|k: int| 0 <= k < j - 1 implies text_le(#[trigger] t[k], x) by {
            assert(t[k] == s[k + 1]);
        }
        lemma_insert_at_first_greater(t, x, j - 1);
        assert(s.insert(j, x) =~= seq![s[0]] + t.insert(j - 1, x));
    }
}

/// Sorts `v` as `Vec::<String>::sort` does: by `text_le`, stably.
pub fn sort_texts(v: Vec<String>) -> (r: Vec<String>)
    ensures
        texts(r@) == sort_spec(texts(v@)),
{
    let mut out: Vec<String> = Vec::new();
    let n = v.len();
    let mut i: usize = 0;
    while i < n
        invariant
            n == v.len(),
            i <= n,
            texts(out@) == sort_spec(texts(v@).take(i as int)),
        decreases n - i,
    {
        let s = v[i].clone();
        let mut j: usize = 0;
        let m = out.len();
        while j < m && text_le_exec(out[j].as_str(), s.as_str())
            invariant
                m == out.len(),
                j <= m,
                forall|k: int| 0 <= k < j ==> text_le(#[trigger] out@[k]@, s@),
            decreases m - j,
        {
            j = j + 1;
        }
        let ghost old_out = out@;
        out.insert(j, s);
        proof {
            let t = texts(old_out);
            assert forall|k: int| 0 <= k < j implies text_le(#[trigger] t[k], v@[i as int]@) by {}
            lemma_insert_at_first_greater(t, v@[i as int]@, j as int);
            assert(texts(out@) =~= t.insert(j as int, v@[i as int]@));
            assert(texts(v@).take(i + 1).drop_last() =~= texts(v@).take(i as int));
        }
        i = i + 1;
    }
    assert(texts(v@).take(n as int) =~= texts(v@));
    out
}


proof fn lemma_insert_sorted_elements(s: Seq<Seq<char>>, x: Seq<char>)
    ensures
        insert_sorted(s, x).len() == s.len() + 1,
        forall|k: int|
            0 <= k < insert_sorted(s, x).len() ==> #[trigger] insert_sorted(s, x)[k] == x
                || s.contains(insert_sorted(s, x)[k]),
        insert_sorted(s, x).to_multiset() == s.to_multiset().insert(x),
    decreases s.len(),
{
    broadcast use vstd::seq_lib::group_to_multiset_ensures;
    broadcast use vstd::multiset::group_multiset_axioms;

    if s.len() == 0 {
        assert(seq![x].to_multiset() =~= Seq::<Seq<char>>::empty().to_multiset().insert(x)) by {
            vstd::seq_lib::to_multiset_build(Seq::<Seq<char>>::empty(), x);
            assert(Seq::<Seq<char>>::empty().push(x) =~= seq![x]);
        }
    } else if text_le(s[0], x) {
        let t = s.drop_first();
        lemma_insert_sorted_elements(t, x);
        let r = insert_sorted(s, x);
        assert forall|k: int| 0 <= k < r.len() implies #[trigger] r[k] == x || s.contains(r[k]) by {
            if k > 0 {
                assert(r[k] == insert_sorted(t, x)[k - 1]);
                if r[k] != x {
                    let w = choose|w: int| 0 <= w < t.len() && t[w] == r[k];
                    assert(s[w + 1] == r[k]);
                }
            } else {
                assert(s[0] == r[0]);
            }
        }
        assert(s =~= seq![s[0]] + t);
        vstd::seq_lib::lemma_multiset_commutative(seq![s[0]], t);
        vstd::seq_lib::lemma_multiset_commutative(seq![s[0]], insert_sorted(t, x));
        assert(seq![s[0]].to_multiset() =~= Multiset::singleton(s[0])) by {
            vstd::seq_lib::to_multiset_build(Seq::<Seq<char>>::empty(), s[0]);
            assert(Seq::<Seq<char>>::empty().push(s[0]) =~= seq![s[0]]);
        }
        assert(r.to_multiset() =~= s.to_multiset().insert(x));
    } else {
        let r = insert_sorted(s, x);
        assert forall|k: int| 0 <= k < r.len() implies #[trigger] r[k] == x || s.contains(r[k]) by {
            if k > 0 {
                assert(r[k] == s[k - 1]);
            }
        }
        assert(r =~= s.insert(0, x));
        vstd::seq_lib::to_multiset_insert(s, 0, x);
    }
}

proof fn lemma_insert_sorted_sorted(s: Seq<Seq<char>>, x: Seq<char>)
    requires
        sorted_texts(s),
    ensures
        sorted_texts(insert_sorted(s, x)),
    decreases s.len(),
{
    lemma_insert_sorted_elements(s, x);
    if s.len() == 0 {
    } else if text_le(s[0], x) {
        let t = s.drop_first();
        assert(sorted_texts(t)) by {
            assert forall|i: int, j: int| 0 <= i < j < t.len() implies text_le(
                #[trigger] t[i],
                #[trigger] t[j],
            ) by {
                assert(t[i] == s[i + 1] && t[j] == s[j + 1]);
            }
        }
        lemma_insert_sorted_sorted(t, x);
        lemma_insert_sorted_elements(t, x);
        let r = insert_sorted(s, x);
        let rt = insert_sorted(t, x);
        assert forall|i: int, j: int| 0 <= i < j < r.len() implies text_le(
            #[trigger] r[i],
            #[trigger] r[j],
        ) by {
            assert(r[j] == rt[j - 1]);
            if i == 0 {
                assert(r[0] == s[0]);
                if rt[j - 1] != x {
                    let w = choose|w: int| 0 <= w < t.len() && t[w] == rt[j - 1];
                    assert(s[w + 1] == rt[j - 1]);
                }
            } else {
                assert(r[i] == rt[i - 1]);
            }
        }
    } else {
        let r = insert_sorted(s, x);
        lemma_text_le_total(s[0], x);
        assert forall|i: int, j: int| 0 <= i < j < r.len() implies text_le(
            #[trigger] r[i],
            #[trigger] r[j],
        ) by {
            assert(r[j] == s[j - 1]);
            if i == 0 {
                if j - 1 > 0 {
                    lemma_text_le_transitive(x, s[0], s[j - 1]);
                }
            } else {
                assert(r[i] == s[i - 1]);
            }
        }
    }
}

/// The order in which a folder's PDFs join the list is ascending: `sort_spec`
/// gives a sorted sequence.
pub proof fn lemma_sort_spec_sorted(s: Seq<Seq<char>>)
    ensures
        sorted_texts(sort_spec(s)),
    decreases s.len(),
{
    if s.len() > 0 {
        lemma_sort_spec_sorted(s.drop_last());
        lemma_insert_sorted_sorted(sort_spec(s.drop_last()), s.last());
    }
}

/// Sorting neither loses nor adds a text: `sort_spec` gives a permutation of
/// its input.
pub proof fn lemma_sort_spec_permutes(s: Seq<Seq<char>>)
    ensures
        sort_spec(s).to_multiset() == s.to_multiset(),
    decreases s.len(),
{
    broadcast use vstd::seq_lib::group_to_multiset_ensures;

    if s.len() > 0 {
        lemma_sort_spec_permutes(s.drop_last());
        lemma_insert_sorted_elements(sort_spec(s.drop_last()), s.last());
        vstd::seq_lib::to_multiset_build(s.drop_last(), s.last());
        assert(s.drop_last().push(s.last()) =~= s);
    }
}

} // verus!
