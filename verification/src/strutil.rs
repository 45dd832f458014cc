//! Lexicographic order on identity strings, with the order-theoretic facts
//! the sorted listings and the scheduler's deterministic tie-break rest on.

use vstd::multiset::Multiset;
use vstd::prelude::*;
use vstd::string::StrSliceExecFns;
use vstd::string::StringExecFns;

verus! {

/// Builds the "namespace/name" identity string a resource is stored under.
pub fn make_id(namespace: &str, name: &str) -> (r: String)
    ensures
        r@ == crate::api::id_view(namespace@, name@),
{
    let mut id = namespace.to_owned();
    id.append("/");
    id.append(name);
    proof {
        reveal_strlit("/");
        assert(id@ =~= crate::api::id_view(namespace@, name@));
    }
    id
}

/// Strict lexicographic order on character sequences, by code point.
pub open spec fn lex_lt(a: Seq<char>, b: Seq<char>) -> bool
    decreases a.len(),
{
    if b.len() == 0 {
        false
    } else if a.len() == 0 {
        true
    } else if a[0] as u32 != b[0] as u32 {
        (a[0] as u32) < (b[0] as u32)
    } else {
        lex_lt(a.skip(1), b.skip(1))
    }
}

/// Non-strict lexicographic order.
pub open spec fn lex_le(a: Seq<char>, b: Seq<char>) -> bool {
    lex_lt(a, b) || a == b
}

/// The order is irreflexive.
pub proof fn lemma_lex_lt_irrefl(a: Seq<char>)
    ensures
        !lex_lt(a, a),
    decreases a.len(),
{
    if a.len() > 0 {
        lemma_lex_lt_irrefl(a.skip(1));
    }
}

/// Any two distinct strings are ordered one way or the other.
pub proof fn lemma_lex_lt_connected(a: Seq<char>, b: Seq<char>)
    ensures
        lex_lt(a, b) || lex_lt(b, a) || a == b,
    decreases a.len(),
{
    if a.len() == 0 && b.len() == 0 {
        assert(a =~= b);
    } else if a.len() > 0 && b.len() > 0 {
        if a[0] as u32 == b[0] as u32 {
            lemma_lex_lt_connected(a.skip(1), b.skip(1));
            if a.skip(1) == b.skip(1) {
                vstd::utf8::char_u32_cast(a[0], a[0] as u32);
                vstd::utf8::char_u32_cast(b[0], b[0] as u32);
                assert(a[0] == b[0]);
                assert(a.skip(1).len() == a.len() - 1);
                assert(b.skip(1).len() == b.len() - 1);
                assert(a.len() == b.len());
                assert forall|i: int| 0 <= i < a.len() implies a[i] == b[i] by {
                    if i >= 1 {
                        assert(a[i] == a.skip(1)[i - 1]);
                        assert(b[i] == b.skip(1)[i - 1]);
                    }
                }
                assert(a =~= b);
            }
        }
    }
}

/// The order is transitive.
pub proof fn lemma_lex_lt_trans(a: Seq<char>, b: Seq<char>, c: Seq<char>)
    requires
        lex_lt(a, b),
        lex_lt(b, c),
    ensures
        lex_lt(a, c),
    decreases a.len(),
{
    if a.len() > 0 && b.len() > 0 && c.len() > 0 {
        if a[0] as u32 == b[0] as u32 && b[0] as u32 == c[0] as u32 {
            lemma_lex_lt_trans(a.skip(1), b.skip(1), c.skip(1));
        }
    }
}

/// Decides `lex_lt` on string slices.
pub fn str_lt(a: &str, b: &str) -> (r: bool)
    ensures
        r == lex_lt(a@, b@),
    decreases a@.len(),
{
    let b_len = b.unicode_len();
    if b_len == 0 {
        return false;
    }
    let a_len = a.unicode_len();
    if a_len == 0 {
        return true;
    }
    let ca = a.get_char(0);
    let cb = b.get_char(0);
    if ca as u32 != cb as u32 {
        (ca as u32) < (cb as u32)
    } else {
        let a_rest = a.substring_char(1, a_len);
        let b_rest = b.substring_char(1, b_len);
        proof {
            assert(a_rest@ =~= a@.skip(1));
            assert(b_rest@ =~= b@.skip(1));
        }
        str_lt(a_rest, b_rest)
    }
}

/// Decides `lex_le` on string slices.
pub fn str_le(a: &str, b: &str) -> (r: bool)
    ensures
        r == lex_le(a@, b@),
{
    if str_lt(a, b) {
        true
    } else {
        proof {
            lemma_lex_lt_connected(a@, b@);
        }
        !str_lt(b, a)
    }
}

/// The views of a list of strings, in order.
pub open spec fn views_of(v: Seq<String>) -> Seq<Seq<char>> {
    v.map_values(|s: String| s@)
}

/// A list with no strings has no views.
proof fn lemma_views_empty()
    ensures
        views_of(Seq::empty()).to_multiset() =~= Multiset::empty(),
{
    broadcast use vstd::seq_lib::group_to_multiset_ensures;

    let vs = views_of(Seq::empty());
    assert(vs.len() == 0);
    assert forall|a: Seq<char>| vs.to_multiset().count(a) == 0 by {
        if vs.to_multiset().count(a) > 0 {
            assert(vs.contains(a));
        }
    }
}

/// Dropping the last string removes its view from the multiset of views.
proof fn lemma_views_drop_last(s: Seq<String>)
    requires
        s.len() > 0,
    ensures
        views_of(s.drop_last()).to_multiset() =~= views_of(s).to_multiset().remove(
            s[s.len() - 1]@,
        ),
{
    broadcast use vstd::seq_lib::group_to_multiset_ensures;

    let vs = views_of(s);
    assert(vs.remove(vs.len() - 1) =~= views_of(s.drop_last()));
    assert(vs.remove(vs.len() - 1).to_multiset() =~= vs.to_multiset().remove(vs[vs.len() - 1]));
}

/// Inserting a string anywhere adds its view to the multiset of views.
proof fn lemma_views_insert(s: Seq<String>, i: int, a: String)
    requires
        0 <= i <= s.len(),
    ensures
        views_of(s.insert(i, a)).to_multiset() =~= views_of(s).to_multiset().insert(a@),
{
    broadcast use vstd::seq_lib::group_to_multiset_ensures;

    let vs = views_of(s);
    let vnew = views_of(s.insert(i, a));
    assert(vnew =~= vs.take(i).push(a@) + vs.skip(i));
    assert(vs =~= vs.take(i) + vs.skip(i));
    vstd::seq_lib::lemma_multiset_commutative(vs.take(i).push(a@), vs.skip(i));
    vstd::seq_lib::lemma_multiset_commutative(vs.take(i), vs.skip(i));
    assert(vs.take(i).push(a@).to_multiset() =~= vs.take(i).to_multiset().insert(a@));
    assert(vnew.to_multiset() =~= vs.to_multiset().insert(a@));
}

/// Sorts identity strings into ascending lexicographic order. The result
/// holds exactly the views of the input (as a multiset), sorted.
pub fn sort_ids(v: Vec<String>) -> (r: Vec<String>)
    ensures
        r@.len() == v@.len(),
        forall|p: int, q: int| 0 <= p < q < r@.len() ==> lex_le(r@[p]@, r@[q]@),
        views_of(r@).to_multiset() == views_of(v@).to_multiset(),
{
    let mut rest = v;
    let mut r: Vec<String> = Vec::new();
    proof {
        lemma_views_empty();
    }
    while rest.len() > 0
        invariant
            views_of(r@).to_multiset().add(views_of(rest@).to_multiset()) == views_of(
                v@,
            ).to_multiset(),
            r@.len() + rest@.len() == v@.len(),
            forall|p: int, q: int| 0 <= p < q < r@.len() ==> lex_le(r@[p]@, r@[q]@),
        decreases rest@.len(),
    {
        let ghost rest0 = rest@;
        let ghost r0 = r@;
        let s = match rest.pop() {
            Some(s) => s,
            None => {
                proof {
                    assert(false);
                }
                return r;
            },
        };
        proof {
            lemma_views_drop_last(rest0);
        }
        let mut i: usize = 0;
        while i < r.len() && str_le(r[i].as_str(), s.as_str())
            invariant
                0 <= i <= r@.len(),
                forall|j: int| 0 <= j < i ==> lex_le(r@[j]@, s@),
            decreases r@.len() - i,
        {
            i += 1;
        }
        proof {
            if i < r@.len() {
                lemma_lex_lt_connected(r@[i as int]@, s@);
                assert(lex_lt(s@, r@[i as int]@));
            }
            lemma_views_insert(r0, i as int, s);
        }
        let ghost snew = s@;
        r.insert(i, s);
        proof {
            assert forall|p: int, q: int| 0 <= p < q < r@.len() implies lex_le(r@[p]@, r@[q]@) by {
                let iv = i as int;
                if q < iv {
                    assert(r@[p]@ == r0[p]@ && r@[q]@ == r0[q]@);
                } else if q == iv {
                    assert(r@[q]@ == snew);
                    assert(lex_le(r0[p]@, snew));
                } else if p < iv {
                    assert(r@[p]@ == r0[p]@ && r@[q]@ == r0[q - 1]@);
                    assert(lex_le(r0[p]@, r0[q - 1]@));
                } else if p == iv {
                    assert(r@[p]@ == snew && r@[q]@ == r0[q - 1]@);
                    assert(lex_lt(snew, r0[iv]@));
                    if q - 1 > iv {
                        assert(lex_le(r0[iv]@, r0[q - 1]@));
                        if lex_lt(r0[iv]@, r0[q - 1]@) {
                            lemma_lex_lt_trans(snew, r0[iv]@, r0[q - 1]@);
                        }
                    }
                } else {
                    assert(r@[p]@ == r0[p - 1]@ && r@[q]@ == r0[q - 1]@);
                }
            }
            broadcast use vstd::seq_lib::group_to_multiset_ensures;

            assert(views_of(rest0)[rest0.len() - 1] == snew);
            assert(views_of(rest0).contains(snew));
            assert(views_of(rest0).to_multiset().count(snew) > 0);
            assert(views_of(r@).to_multiset().add(views_of(rest@).to_multiset()) =~= views_of(
                v@,
            ).to_multiset());
        }
    }
    proof {
        assert(rest@ =~= Seq::<String>::empty());
        lemma_views_empty();
        assert(views_of(r@).to_multiset() =~= views_of(v@).to_multiset());
    }
    r
}

} // verus!
