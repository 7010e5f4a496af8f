//! The order of strings (by code point, the same order as by UTF-8 bytes) and sorted
//! collections of distinct strings.
use vstd::prelude::*;
use crate::text::chars_eq;

verus! {

/// `a` sorts strictly before `b`, comparing characters by code point.
pub open spec fn lex_lt(a: Seq<char>, b: Seq<char>) -> bool
    decreases a.len(),
{
    if b.len() == 0 {
        false
    } else if a.len() == 0 {
        true
    } else if a[0] != b[0] {
        (a[0] as u32) < (b[0] as u32)
    } else {
        lex_lt(a.drop_first(), b.drop_first())
    }
}

/// Each element sorts strictly before the next (so none occurs twice).
pub open spec fn strictly_sorted(v: Seq<Seq<char>>) -> bool {
    forall|i: int, j: int| 0 <= i < j < v.len() ==> lex_lt(#[trigger] v[i], #[trigger] v[j])
}

/// The texts of a list of character vectors.
pub open spec fn vtexts(v: Seq<Vec<char>>) -> Seq<Seq<char>> {
    v.map_values(|c: Vec<char>| c@)
}

pub proof fn lemma_lex_irreflexive(a: Seq<char>)
    ensures
        !lex_lt(a, a),
    decreases a.len(),
{
    if a.len() > 0 {
        lemma_lex_irreflexive(a.drop_first());
    }
}

pub proof fn lemma_lex_total(a: Seq<char>, b: Seq<char>)
    ensures
        a != b ==> lex_lt(a, b) || lex_lt(b, a),
        !(lex_lt(a, b) && lex_lt(b, a)),
    decreases a.len(),
{
    if a.len() > 0 && b.len() > 0 && a[0] == b[0] {
        lemma_lex_total(a.drop_first(), b.drop_first());
        if a != b {
            assert(a =~= seq![a[0]] + a.drop_first());
            assert(b =~= seq![b[0]] + b.drop_first());
        }
    } else if a.len() == 0 && b.len() == 0 {
        assert(a =~= b);
    } else if a.len() > 0 && b.len() > 0 {
        vstd::utf8::char_u32_cast(a[0], a[0] as u32);
        vstd::utf8::char_u32_cast(b[0], b[0] as u32);
    }
}

pub proof fn lemma_lex_trans(a: Seq<char>, b: Seq<char>, c: Seq<char>)
    requires
        lex_lt(a, b),
        lex_lt(b, c),
    ensures
        lex_lt(a, c),
    decreases a.len(),
{
    if a.len() > 0 && a[0] == b[0] && b[0] == c[0] {
        lemma_lex_trans(a.drop_first(), b.drop_first(), c.drop_first());
    }
}

/// Whether `a` sorts strictly before `b`.
pub fn lex_less(a: &[char], b: &[char]) -> (r: bool)
    ensures
        r == lex_lt(a@, b@),
{
    let mut i: usize = 0;
    assert(a@.skip(0) == a@ && b@.skip(0) == b@);
    while i < a.len() && i < b.len() && a[i] == b[i]
        invariant
            i <= a.len(),
            i <= b.len(),
            lex_lt(a@, b@) == lex_lt(a@.skip(i as int), b@.skip(i as int)),
        decreases a.len() - i,
    {
        assert(a@.skip(i as int).drop_first() == a@.skip(i + 1));
        assert(b@.skip(i as int).drop_first() == b@.skip(i + 1));
        i += 1;
    }
    if i == b.len() {
        false
    } else if i == a.len() {
        true
    } else {
        assert(a@.skip(i as int)[0] == a@[i as int]);
        assert(b@.skip(i as int)[0] == b@[i as int]);
        (a[i] as u32) < (b[i] as u32)
    }
}

/// Adds `x` to a strictly sorted list unless it is there already.
pub fn insert_sorted(v: &mut Vec<Vec<char>>, x: Vec<char>)
    requires
        strictly_sorted(vtexts(old(v)@)),
    ensures
        strictly_sorted(vtexts(final(v)@)),
        vtexts(final(v)@).to_set() == vtexts(old(v)@).to_set().insert(x@),
{
    let ghost old_v = vtexts(v@);
    let mut p: usize = 0;
    while p < v.len() && lex_less(v[p].as_slice(), x.as_slice())
        invariant
            p <= v.len(),
            old_v == vtexts(v@),
            forall|j: int| 0 <= j < p ==> lex_lt(#[trigger] old_v[j], x@),
        decreases v.len() - p,
    {
        p += 1;
    }
    if p < v.len() && chars_eq(v[p].as_slice(), x.as_slice()) {
        assert(old_v.to_set().insert(x@) =~= old_v.to_set()) by {
            assert(old_v.contains(x@)) by {
                assert(old_v[p as int] == x@);
            }
        }
        return ;
    }
    proof {
        if p < old_v.len() {
            lemma_lex_total(old_v[p as int], x@);
        }
    }
    v.insert(p, x);
    let ghost nv = vtexts(v@);
    assert(nv =~= old_v.insert(p as int, x@));
    assert forall|i: int, j: int| 0 <= i < j < nv.len() implies lex_lt(
        #[trigger] nv[i],
        #[trigger] nv[j],
    ) by {
        if j < p {
            assert(lex_lt(old_v[i], old_v[j]));
        } else if j == p {
            assert(lex_lt(old_v[i], x@));
        } else if i == p {
            assert(lex_lt(x@, old_v[p as int]));
            if j - 1 > p {
                assert(lex_lt(old_v[p as int], old_v[j - 1]));
                lemma_lex_trans(x@, old_v[p as int], old_v[j - 1]);
            }
        } else if i < p {
            assert(lex_lt(old_v[i], old_v[j - 1]));
        } else {
            assert(lex_lt(old_v[i - 1], old_v[j - 1]));
        }
    }
    assert(nv.to_set() =~= old_v.to_set().insert(x@)) by {
        assert forall|y: Seq<char>| nv.to_set().contains(y) <==> old_v.to_set().insert(x@).contains(
            y,
        ) by {
            if nv.contains(y) {
                let k = choose|k: int| 0 <= k < nv.len() && nv[k] == y;
                if k < p {
                    assert(old_v[k] == y);
                } else if k > p {
                    assert(old_v[k - 1] == y);
                }
            }
            if old_v.contains(y) {
                let k = choose|k: int| 0 <= k < old_v.len() && old_v[k] == y;
                if k < p {
                    assert(nv[k] == y);
                } else {
                    assert(nv[k + 1] == y);
                }
            }
            if y == x@ {
                assert(nv[p as int] == y);
            }
        }
    }
}

/// The distinct texts of a list in sorted order (`sort` then `dedup`).
pub fn sorted_unique(items: &Vec<Vec<char>>) -> (out: Vec<Vec<char>>)
    ensures
        strictly_sorted(vtexts(out@)),
        vtexts(out@).to_set() == vtexts(items@).to_set(),
{
    let mut out: Vec<Vec<char>> = Vec::new();
    let ghost iv = vtexts(items@);
    let mut i: usize = 0;
    assert(vtexts(out@).to_set() =~= iv.take(0).to_set());
    while i < items.len()
        invariant
            i <= items.len(),
            iv == vtexts(items@),
            strictly_sorted(vtexts(out@)),
            vtexts(out@).to_set() == iv.take(i as int).to_set(),
        decreases items.len() - i,
    {
        let mut x: Vec<char> = Vec::new();
        crate::text::extend_chars(&mut x, items[i].as_slice());
        insert_sorted(&mut out, x);
        proof {
            assert(iv.take(i + 1) == iv.take(i as int).push(iv[i as int]));
            iv.take(i as int).lemma_push_to_set_commute(iv[i as int]);
        }
        i += 1;
    }
    assert(iv.take(items.len() as int) == iv);
    out
}

} // verus!
