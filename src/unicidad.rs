//! The ranking is unique: over the same keys, listed in any order, the
//! selection of the best keys is the same, key by key.
use vstd::prelude::*;
use vstd::utf8::encode_utf8;
use crate::ranking::{Clave, es_top, lex_menor, precede};

verus! {

broadcast use vstd::seq_lib::group_seq_properties;

proof fn lema_lex_irreflexivo(a: Seq<u8>)
    ensures
        !lex_menor(a, a),
    decreases a.len(),
{
    if a.len() > 0 {
        lema_lex_irreflexivo(a.drop_first());
    }
}

#[verifier::spinoff_prover]
proof fn lema_lex_total(a: Seq<u8>, b: Seq<u8>)
    requires
        a != b,
    ensures
        lex_menor(a, b) || lex_menor(b, a),
    decreases a.len(),
{
    if a.len() > 0 && b.len() > 0 && a[0] == b[0] {
        if a.drop_first() == b.drop_first() {
            assert(a =~= seq![a[0]] + a.drop_first());
            assert(b =~= seq![b[0]] + b.drop_first());
        }
        lema_lex_total(a.drop_first(), b.drop_first());
    } else if a.len() == 0 {
        assert(b.len() > 0);
    }
}

#[verifier::spinoff_prover]
proof fn lema_lex_asimetrico(a: Seq<u8>, b: Seq<u8>)
    requires
        lex_menor(a, b),
    ensures
        !lex_menor(b, a),
    decreases a.len(),
{
    if a.len() > 0 && b.len() > 0 && a[0] == b[0] {
        lema_lex_asimetrico(a.drop_first(), b.drop_first());
    }
}

/// Keys with different names are always ranked one way or the other.
#[verifier::spinoff_prover]
proof fn lema_precede_total(x: Clave, y: Clave)
    requires
        x.1 != y.1,
    ensures
        precede(x, y) || precede(y, x),
        !(precede(x, y) && precede(y, x)),
{
    vstd::utf8::encode_utf8_decode_utf8(x.1);
    vstd::utf8::encode_utf8_decode_utf8(y.1);
    lema_lex_total(encode_utf8(x.1), encode_utf8(y.1));
    if lex_menor(encode_utf8(x.1), encode_utf8(y.1)) {
        lema_lex_asimetrico(encode_utf8(x.1), encode_utf8(y.1));
    }
}

/// No name occurs twice among the keys.
pub open spec fn nombres_unicos(c: Seq<Clave>) -> bool {
    forall|i: int, j: int| 0 <= i < j < c.len() ==> #[trigger] c[i].1 != #[trigger] c[j].1
}

/// `c1` and `c2` list the same keys, each name at most once.
pub open spec fn mismas_claves(c1: Seq<Clave>, c2: Seq<Clave>) -> bool {
    &&& c1.len() == c2.len()
    &&& c1.len() <= usize::MAX
    &&& nombres_unicos(c1)
    &&& nombres_unicos(c2)
    &&& c1.to_set() == c2.to_set()
}

#[verifier::spinoff_prover]
proof fn lema_no_supera(c1: Seq<Clave>, c2: Seq<Clave>, s1: Seq<usize>, s2: Seq<usize>, k: nat, p: int)
    requires
        mismas_claves(c1, c2),
        es_top(c1, s1, k),
        es_top(c2, s2, k),
        0 <= p < s1.len(),
        s1.len() == s2.len(),
        forall|q: int| 0 <= q < p ==> c1[#[trigger] s1[q] as int] == c2[s2[q] as int],
    ensures
        !precede(c1[s1[p] as int], c2[s2[p] as int]),
{
    let x = c1[s1[p] as int];
    let y = c2[s2[p] as int];
    if precede(x, y) {
        let i1 = s1[p] as int;
        assert(c1.to_set().contains(x));
        assert(c2.contains(x));
        let j2 = choose|j: int| 0 <= j < c2.len() && c2[j] == x;
        if s2.contains(j2 as usize) {
            let q = choose|q: int| 0 <= q < s2.len() && s2[q] == j2 as usize;
            if q < p {
                assert(c1[s1[q] as int] == c2[s2[q] as int]);
                assert(s1[q] != s1[p]);
                if s1[q] < s1[p] {
                    assert(c1[s1[q] as int].1 != c1[s1[p] as int].1);
                } else {
                    assert(c1[s1[p] as int].1 != c1[s1[q] as int].1);
                }
            } else if q > p {
                assert(!precede(c2[s2[q] as int], c2[s2[p] as int]));
            } else {
                assert(s2[p] as int == j2);
                assert(x == y);
                lema_lex_irreflexivo(encode_utf8(x.1));
            }
        } else {
            assert(!precede(c2[j2], c2[s2[p] as int]));
        }
    }
}

/// The ranking is unique: two selections over the same keys, in whatever
/// order they are listed, pick the same keys in the same order.
#[verifier::spinoff_prover]
pub proof fn ley_top_unico(c1: Seq<Clave>, c2: Seq<Clave>, s1: Seq<usize>, s2: Seq<usize>, k: nat, p: int)
    requires
        mismas_claves(c1, c2),
        es_top(c1, s1, k),
        es_top(c2, s2, k),
        0 <= p <= s1.len(),
    ensures
        s1.len() == s2.len(),
        forall|q: int| 0 <= q < p ==> c1[#[trigger] s1[q] as int] == c2[s2[q] as int],
    decreases p,
{
    if p > 0 {
        ley_top_unico(c1, c2, s1, s2, k, p - 1);
        let q = p - 1;
        lema_no_supera(c1, c2, s1, s2, k, q);
        assert forall|t: int| 0 <= t < q implies c2[#[trigger] s2[t] as int] == c1[s1[t] as int] by {
            assert(c1[s1[t] as int] == c2[s2[t] as int]);
        }
        lema_no_supera(c2, c1, s2, s1, k, q);
        let x = c1[s1[q] as int];
        let y = c2[s2[q] as int];
        if x.1 != y.1 {
            lema_precede_total(x, y);
        } else {
            assert(c1.to_set().contains(x));
            assert(c2.contains(x));
            let j2 = choose|j: int| 0 <= j < c2.len() && c2[j] == x;
            if j2 != s2[q] as int {
                if j2 < s2[q] as int {
                    assert(c2[j2].1 != c2[s2[q] as int].1);
                } else {
                    assert(c2[s2[q] as int].1 != c2[j2].1);
                }
            }
        }
    }
}

} // verus!
