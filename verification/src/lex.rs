//! Lexicographic ordering and sorting of strings.
//!
//! Metric identity hashes fold their contributing strings in a canonical
//! order, so that permuting the input leaves the hash unchanged. This module
//! provides the order (plain lexicographic comparison of character values),
//! proves it total, and sorts a vector of strings by it; the sorted result
//! is pinned to `Seq::sort_by`, giving callers a canonical form that depends
//! only on the multiset of inputs.

use vstd::prelude::*;
use vstd::relations::sorted_by;
use vstd::relations::total_ordering;
use vstd::seq_lib::group_to_multiset_ensures;
use vstd::seq_lib::lemma_sorted_unique;

verus! {

/// Lexicographic "less than or equal" on character sequences, comparing
/// scalar character values.
pub open spec fn char_seq_le(a: Seq<char>, b: Seq<char>) -> bool
    decreases a.len(),
{
    if a.len() == 0 {
        true
    } else if b.len() == 0 {
        false
    } else if (a[0] as int) < (b[0] as int) {
        true
    } else if (a[0] as int) > (b[0] as int) {
        false
    } else {
        char_seq_le(a.drop_first(), b.drop_first())
    }
}

/// The lexicographic order as a relation value, for `sort_by`.
pub open spec fn lex_leq() -> spec_fn(Seq<char>, Seq<char>) -> bool {
    |a: Seq<char>, b: Seq<char>| char_seq_le(a, b)
}

proof fn lemma_char_seq_le_refl(a: Seq<char>)
    ensures
        char_seq_le(a, a),
    decreases a.len(),
{
    if a.len() > 0 {
        lemma_char_seq_le_refl(a.drop_first());
    }
}

proof fn lemma_char_seq_le_antisym(a: Seq<char>, b: Seq<char>)
    requires
        char_seq_le(a, b),
        char_seq_le(b, a),
    ensures
        a == b,
    decreases a.len(),
{
    if a.len() == 0 {
        assert(b.len() == 0);
        assert(a =~= b);
    } else {
        assert(b.len() > 0);
        assert(!((a[0] as int) < (b[0] as int)));
        assert(!((b[0] as int) < (a[0] as int)));
        assert(a[0] as int == b[0] as int);
        assert(a[0] == b[0]);
        assert(char_seq_le(a.drop_first(), b.drop_first()));
        assert(char_seq_le(b.drop_first(), a.drop_first()));
        lemma_char_seq_le_antisym(a.drop_first(), b.drop_first());
        assert(a =~= b) by {
            assert(a.len() == b.len());
            assert(forall|i: int|
                1 <= i < a.len() ==> a[i] == a.drop_first()[i - 1] && b[i]
                    == b.drop_first()[i - 1]);
        }
    }
}

proof fn lemma_char_seq_le_trans(a: Seq<char>, b: Seq<char>, c: Seq<char>)
    requires
        char_seq_le(a, b),
        char_seq_le(b, c),
    ensures
        char_seq_le(a, c),
    decreases a.len(),
{
    if a.len() > 0 && b.len() > 0 && c.len() > 0 {
        if a[0] as int == b[0] as int && b[0] as int == c[0] as int {
            lemma_char_seq_le_trans(a.drop_first(), b.drop_first(), c.drop_first());
        }
    }
}

proof fn lemma_char_seq_le_total(a: Seq<char>, b: Seq<char>)
    ensures
        char_seq_le(a, b) || char_seq_le(b, a),
    decreases a.len(),
{
    if a.len() > 0 && b.len() > 0 && a[0] as int == b[0] as int {
        lemma_char_seq_le_total(a.drop_first(), b.drop_first());
    }
}

/// The lexicographic order is a total order.
pub proof fn lemma_lex_leq_total_ordering()
    ensures
        total_ordering(lex_leq()),
{
    let leq = lex_leq();
    assert forall|x: Seq<char>| #[trigger] leq(x, x) by {
        lemma_char_seq_le_refl(x);
    }
    assert forall|x: Seq<char>, y: Seq<char>| #[trigger] leq(x, y) && #[trigger] leq(y, x)
        implies x == y by {
        lemma_char_seq_le_antisym(x, y);
    }
    assert forall|x: Seq<char>, y: Seq<char>, z: Seq<char>|
        #[trigger] leq(x, y) && #[trigger] leq(y, z) implies leq(x, z) by {
        lemma_char_seq_le_trans(x, y, z);
    }
    assert forall|x: Seq<char>, y: Seq<char>|
        #[trigger] leq(x, y) || #[trigger] leq(y, x) by {
        lemma_char_seq_le_total(x, y);
    }
}

proof fn lemma_le_unfold_step(a: Seq<char>, b: Seq<char>, i: int)
    requires
        0 <= i < a.len(),
        i < b.len(),
        a[i] == b[i],
    ensures
        char_seq_le(a.skip(i), b.skip(i)) == char_seq_le(a.skip(i + 1), b.skip(i + 1)),
{
    assert(a.skip(i).len() > 0);
    assert(b.skip(i).len() > 0);
    assert(a.skip(i)[0] == a[i]);
    assert(b.skip(i)[0] == b[i]);
    assert(a.skip(i).drop_first() =~= a.skip(i + 1));
    assert(b.skip(i).drop_first() =~= b.skip(i + 1));
}

/// Compare two strings in the lexicographic order.
pub fn string_le(a: &String, b: &String) -> (r: bool)
    ensures
        r == char_seq_le(a@, b@),
{
    let la: usize = a.as_str().unicode_len();
    let lb: usize = b.as_str().unicode_len();
    let mut i: usize = 0;
    proof {
        assert(a@.skip(0) =~= a@);
        assert(b@.skip(0) =~= b@);
    }
    while i < la && i < lb
        invariant
            la == a@.len(),
            lb == b@.len(),
            i <= la,
            i <= lb,
            char_seq_le(a@, b@) == char_seq_le(a@.skip(i as int), b@.skip(i as int)),
        decreases la - i,
    {
        let ca: char = a.as_str().get_char(i);
        let cb: char = b.as_str().get_char(i);
        if (ca as u32) < (cb as u32) {
            proof {
                assert(a@.skip(i as int)[0] == a@[i as int]);
                assert(b@.skip(i as int)[0] == b@[i as int]);
                assert(ca as int == ca as u32 as int);
                assert(cb as int == cb as u32 as int);
            }
            return true;
        }
        if (ca as u32) > (cb as u32) {
            proof {
                assert(a@.skip(i as int)[0] == a@[i as int]);
                assert(b@.skip(i as int)[0] == b@[i as int]);
                assert(ca as int == ca as u32 as int);
                assert(cb as int == cb as u32 as int);
            }
            return false;
        }
        proof {
            assert(a@[i as int] == ca && b@[i as int] == cb);
            assert(ca as int == ca as u32 as int);
            assert(cb as int == cb as u32 as int);
            assert(a@[i as int] as int == b@[i as int] as int);
            assert(a@[i as int] == b@[i as int]);
            lemma_le_unfold_step(a@, b@, i as int);
        }
        i += 1;
    }
    proof {
        if i == la {
            assert(a@.skip(i as int).len() == 0);
        } else {
            assert(b@.skip(i as int).len() == 0);
            assert(a@.skip(i as int).len() > 0);
        }
    }
    i == la
}

proof fn lemma_sorted_insert(s: Seq<Seq<char>>, x: Seq<char>, j: int)
    requires
        sorted_by(s, lex_leq()),
        0 <= j <= s.len(),
        forall|k: int| 0 <= k < j ==> #[trigger] lex_leq()(s[k], x),
        forall|k: int| j <= k < s.len() ==> #[trigger] lex_leq()(x, s[k]),
    ensures
        sorted_by(s.insert(j, x), lex_leq()),
{
    let t = s.insert(j, x);
    s.insert_ensures(j, x);
    assert forall|p: int, q: int| 0 <= p < q < t.len() implies lex_leq()(t[p], t[q]) by {
        if p < j && q < j {
            assert(t[p] == s[p] && t[q] == s[q]);
        } else if p < j && q == j {
            assert(t[p] == s[p] && t[q] == x);
        } else if p < j && q > j {
            assert(t[p] == s[p] && t[q] == s[q - 1]);
        } else if p == j {
            assert(t[p] == x && t[q] == s[q - 1]);
        } else {
            assert(t[p] == s[p - 1] && t[q] == s[q - 1]);
        }
    }
}

/// Sort a vector of strings into the canonical lexicographic order. The
/// result is exactly `sort_by` of the input's contents, so it depends only
/// on the multiset of strings given.
pub fn sort_strings(v: &Vec<String>) -> (r: Vec<String>)
    ensures
        r.deep_view() == v.deep_view().sort_by(lex_leq()),
        sorted_by(r.deep_view(), lex_leq()),
        r.deep_view().to_multiset() == v.deep_view().to_multiset(),
{
    broadcast use group_to_multiset_ensures;

    proof {
        lemma_lex_leq_total_ordering();
    }
    let mut out: Vec<String> = Vec::new();
    let mut idx: usize = 0;
    proof {
        assert(v.deep_view().subrange(0, 0) =~= Seq::<Seq<char>>::empty());
        assert(out.deep_view() =~= Seq::<Seq<char>>::empty());
        assert(out.deep_view().to_multiset() =~= v.deep_view().subrange(
            0,
            0,
        ).to_multiset());
    }
    while idx < v.len()
        invariant
            idx <= v@.len(),
            v.deep_view().len() == v@.len(),
            out.deep_view().len() == out@.len(),
            sorted_by(out.deep_view(), lex_leq()),
            out.deep_view().to_multiset() == v.deep_view().subrange(
                0,
                idx as int,
            ).to_multiset(),
        decreases v@.len() - idx,
    {
        let x: String = v[idx].clone();
        proof {
            assert(x@ == v@[idx as int]@);
            assert(v.deep_view()[idx as int] == v@[idx as int]@);
        }
        let ghost dv = out.deep_view();
        let mut j: usize = 0;
        while j < out.len()
            invariant
                j <= out@.len(),
                out.deep_view() == dv,
                out.deep_view().len() == out@.len(),
                sorted_by(out.deep_view(), lex_leq()),
                forall|k: int| 0 <= k < j ==> #[trigger] lex_leq()(dv[k], x@),
            ensures
                j <= out@.len(),
                forall|k: int| 0 <= k < j ==> #[trigger] lex_leq()(dv[k], x@),
                j < out@.len() ==> !char_seq_le(dv[j as int], x@),
            decreases out@.len() - j,
        {
            proof {
                assert(dv[j as int] == out@[j as int]@);
            }
            if !string_le(&out[j], &x) {
                break;
            }
            j += 1;
        }
        proof {
            lemma_lex_leq_total_ordering();
            if j < out@.len() {
                assert(!char_seq_le(dv[j as int], x@));
                lemma_char_seq_le_total(dv[j as int], x@);
                assert(char_seq_le(x@, dv[j as int]));
            }
            assert forall|k: int| j <= k < dv.len() implies #[trigger] lex_leq()(
                x@,
                dv[k],
            ) by {
                if k > j {
                    assert(lex_leq()(dv[j as int], dv[k]));
                    lemma_char_seq_le_trans(x@, dv[j as int], dv[k]);
                }
            }
            lemma_sorted_insert(dv, x@, j as int);
        }
        out.insert(j, x);
        proof {
            assert(out.deep_view() =~= dv.insert(j as int, x@));
            assert(v.deep_view().subrange(0, idx as int + 1) =~= v.deep_view().subrange(
                0,
                idx as int,
            ).push(v.deep_view()[idx as int]));
            vstd::seq_lib::to_multiset_insert(dv, j as int, x@);
            vstd::seq_lib::to_multiset_build(
                v.deep_view().subrange(0, idx as int),
                v.deep_view()[idx as int],
            );
            assert(out.deep_view().to_multiset() =~= v.deep_view().subrange(
                0,
                idx as int + 1,
            ).to_multiset());
        }
        idx += 1;
    }
    proof {
        assert(v.deep_view().subrange(0, v.deep_view().len() as int) =~= v.deep_view());
        v.deep_view().lemma_sort_by_ensures(lex_leq());
        lemma_sorted_unique(out.deep_view(), v.deep_view().sort_by(lex_leq()), lex_leq());
    }
    out
}

} // verus!
