//! Mathematical model of the statistics: the records that were counted, the
//! "best record" rule, and the weight-descending merge that bounds top lists.
use vstd::prelude::*;

verus! {

broadcast use vstd::seq_lib::group_seq_properties;

/// Largest number of records kept in a category's top list.
pub const MAX_TOP_RESENAS: usize = 10;

/// A record whose weight parsed as a number: the unit that every statistic counts.
pub struct Registro {
    pub juego: Seq<char>,
    pub idioma: Seq<char>,
    pub texto: Seq<char>,
    pub votos: u32,
}

/// A (text, weight) pair as it is kept in best-record slots and top lists.
pub type Par = (Seq<char>, u32);

pub open spec fn par_de(r: Registro) -> Par {
    (r.texto, r.votos)
}

pub open spec fn pares(h: Seq<Registro>) -> Seq<Par> {
    h.map_values(|r: Registro| par_de(r))
}

/// The records of one entity.
pub open spec fn de_juego(h: Seq<Registro>, juego: Seq<char>) -> Seq<Registro> {
    h.filter(|r: Registro| r.juego == juego)
}

/// The records of one category, whatever their entity.
pub open spec fn de_idioma(h: Seq<Registro>, idioma: Seq<char>) -> Seq<Registro> {
    h.filter(|r: Registro| r.idioma == idioma)
}

/// The first pair of greatest weight: a later pair replaces the current best
/// only when its weight is strictly greater.
pub open spec fn mejor(s: Seq<Par>) -> Par
    decreases s.len(),
{
    if s.len() <= 1 {
        s[0]
    } else {
        let m = mejor(s.drop_last());
        if s.last().1 > m.1 {
            s.last()
        } else {
            m
        }
    }
}

/// Stable merge by descending weight: on equal weights the left pair goes first.
pub open spec fn fusion(a: Seq<Par>, b: Seq<Par>) -> Seq<Par>
    decreases a.len() + b.len(),
{
    if a.len() == 0 {
        b
    } else if b.len() == 0 {
        a
    } else if a[0].1 >= b[0].1 {
        seq![a[0]] + fusion(a.drop_first(), b)
    } else {
        seq![b[0]] + fusion(a, b.drop_first())
    }
}

/// Stable sort by descending weight, built by merging one pair at a time.
pub open spec fn ordenar(s: Seq<Par>) -> Seq<Par>
    decreases s.len(),
{
    if s.len() == 0 {
        s
    } else {
        fusion(ordenar(s.drop_last()), seq![s.last()])
    }
}

/// The first `k` elements (all of them when there are fewer).
pub open spec fn recortar(s: Seq<Par>, k: nat) -> Seq<Par> {
    if s.len() <= k {
        s
    } else {
        s.take(k as int)
    }
}

/// The top list of a sequence of pairs: the stable descending order, capped.
pub open spec fn top(s: Seq<Par>) -> Seq<Par> {
    recortar(ordenar(s), MAX_TOP_RESENAS as nat)
}

/// Weights never increase along the sequence.
pub open spec fn descendente(s: Seq<Par>) -> bool {
    forall|i: int, j: int| 0 <= i < j < s.len() ==> s[i].1 >= s[j].1
}

pub proof fn lema_pares_concat(a: Seq<Registro>, b: Seq<Registro>)
    ensures
        pares(a + b) == pares(a) + pares(b),
{
    assert(pares(a + b) =~= pares(a) + pares(b));
}

pub proof fn lema_fusion_vacia(a: Seq<Par>)
    ensures
        fusion(a, Seq::empty()) == a,
        fusion(Seq::empty(), a) == a,
{
}

pub proof fn lema_fusion_len(a: Seq<Par>, b: Seq<Par>)
    ensures
        fusion(a, b).len() == a.len() + b.len(),
    decreases a.len() + b.len(),
{
    if a.len() > 0 && b.len() > 0 {
        if a[0].1 >= b[0].1 {
            lema_fusion_len(a.drop_first(), b);
        } else {
            lema_fusion_len(a, b.drop_first());
        }
    }
}

/// Merging is associative, so the order in which partial lists are grouped
/// does not matter, only their left-to-right order.
pub proof fn lema_fusion_asociativa(a: Seq<Par>, b: Seq<Par>, c: Seq<Par>)
    ensures
        fusion(fusion(a, b), c) == fusion(a, fusion(b, c)),
    decreases a.len() + b.len() + c.len(),
{
    if a.len() == 0 {
        lema_fusion_vacia(fusion(b, c));
    } else if b.len() == 0 {
        lema_fusion_vacia(a);
        lema_fusion_vacia(c);
    } else if c.len() == 0 {
        lema_fusion_vacia(fusion(a, b));
        lema_fusion_vacia(b);
    } else {
        let ab = fusion(a, b);
        let bc = fusion(b, c);
        lema_fusion_len(a, b);
        lema_fusion_len(b, c);
        if a[0].1 >= b[0].1 {
            assert(ab == seq![a[0]] + fusion(a.drop_first(), b));
            assert(ab.drop_first() =~= fusion(a.drop_first(), b));
            if a[0].1 >= c[0].1 {
                lema_fusion_asociativa(a.drop_first(), b, c);
                if b[0].1 >= c[0].1 {
                    assert(bc[0] == b[0]);
                } else {
                    assert(bc[0] == c[0]);
                }
            } else {
                assert(bc == seq![c[0]] + fusion(b, c.drop_first()));
                assert(bc.drop_first() =~= fusion(b, c.drop_first()));
                lema_fusion_asociativa(a, b, c.drop_first());
            }
        } else {
            assert(ab == seq![b[0]] + fusion(a, b.drop_first()));
            assert(ab.drop_first() =~= fusion(a, b.drop_first()));
            if b[0].1 >= c[0].1 {
                assert(bc == seq![b[0]] + fusion(b.drop_first(), c));
                assert(bc.drop_first() =~= fusion(b.drop_first(), c));
                lema_fusion_asociativa(a, b.drop_first(), c);
            } else {
                assert(bc == seq![c[0]] + fusion(b, c.drop_first()));
                assert(bc.drop_first() =~= fusion(b, c.drop_first()));
                lema_fusion_asociativa(a, b, c.drop_first());
            }
        }
    }
}

/// Sorting a concatenation is merging the sorted halves.
pub proof fn lema_ordenar_concat(a: Seq<Par>, b: Seq<Par>)
    ensures
        ordenar(a + b) == fusion(ordenar(a), ordenar(b)),
    decreases b.len(),
{
    if b.len() == 0 {
        assert(a + b =~= a);
        lema_fusion_vacia(ordenar(a));
    } else {
        assert((a + b).drop_last() =~= a + b.drop_last());
        assert((a + b).last() == b.last());
        lema_ordenar_concat(a, b.drop_last());
        lema_fusion_asociativa(ordenar(a), ordenar(b.drop_last()), seq![b.last()]);
    }
}

/// Capping both inputs before a capped merge changes nothing.
pub proof fn lema_recorte_fusion(a: Seq<Par>, b: Seq<Par>, k: nat)
    ensures
        recortar(fusion(a, b), k) == recortar(fusion(recortar(a, k), recortar(b, k)), k),
    decreases a.len() + b.len(),
{
    lema_fusion_len(a, b);
    let ra = recortar(a, k);
    let rb = recortar(b, k);
    lema_fusion_len(ra, rb);
    if k == 0 {
        assert(recortar(fusion(a, b), k) =~= Seq::empty());
        assert(recortar(fusion(ra, rb), k) =~= Seq::empty());
    } else if a.len() == 0 {
        assert(ra =~= a);
        lema_fusion_vacia(b);
        lema_fusion_vacia(rb);
        assert(recortar(rb, k) =~= recortar(b, k));
    } else if b.len() == 0 {
        assert(rb =~= b);
        lema_fusion_vacia(a);
        lema_fusion_vacia(ra);
        assert(recortar(ra, k) =~= recortar(a, k));
    } else {
        let k1 = (k - 1) as nat;
        assert(ra[0] == a[0]);
        assert(rb[0] == b[0]);
        if a[0].1 >= b[0].1 {
            let ta = a.drop_first();
            let rta = recortar(ta, k1);
            assert(ra.drop_first() =~= rta);
            lema_recorte_fusion(ta, b, k1);
            lema_recorte_fusion(rta, rb, k1);
            assert(recortar(rta, k1) =~= rta);
            assert(recortar(rb, k1) =~= recortar(b, k1));
            lema_fusion_len(ta, b);
            lema_fusion_len(rta, rb);
            assert(recortar(fusion(a, b), k) =~= seq![a[0]] + recortar(fusion(ta, b), k1));
            assert(recortar(fusion(ra, rb), k) =~= seq![a[0]] + recortar(fusion(rta, rb), k1));
        } else {
            let tb = b.drop_first();
            let rtb = recortar(tb, k1);
            assert(rb.drop_first() =~= rtb);
            lema_recorte_fusion(a, tb, k1);
            lema_recorte_fusion(ra, rtb, k1);
            assert(recortar(rtb, k1) =~= rtb);
            assert(recortar(ra, k1) =~= recortar(a, k1));
            lema_fusion_len(a, tb);
            lema_fusion_len(ra, rtb);
            assert(recortar(fusion(a, b), k) =~= seq![b[0]] + recortar(fusion(a, tb), k1));
            assert(recortar(fusion(ra, rb), k) =~= seq![b[0]] + recortar(fusion(ra, rtb), k1));
        }
    }
}

pub proof fn lema_fusion_descendente(a: Seq<Par>, b: Seq<Par>)
    requires
        descendente(a),
        descendente(b),
    ensures
        descendente(fusion(a, b)),
        fusion(a, b).len() > 0 ==> (fusion(a, b)[0] == a[0] || fusion(a, b)[0] == b[0]),
    decreases a.len() + b.len(),
{
    if a.len() > 0 && b.len() > 0 {
        let f = fusion(a, b);
        if a[0].1 >= b[0].1 {
            let t = a.drop_first();
            lema_fusion_descendente(t, b);
            let ft = fusion(t, b);
            assert forall|i: int, j: int| 0 <= i < j < f.len() implies f[i].1 >= f[j].1 by {
                if i == 0 {
                    assert(f[j] == ft[j - 1]);
                    if ft[0] == t[0] {
                        assert(ft[0].1 <= a[0].1);
                    }
                    assert(ft[0].1 <= a[0].1);
                } else {
                    assert(f[i] == ft[i - 1]);
                    assert(f[j] == ft[j - 1]);
                }
            }
        } else {
            let t = b.drop_first();
            lema_fusion_descendente(a, t);
            let ft = fusion(a, t);
            assert forall|i: int, j: int| 0 <= i < j < f.len() implies f[i].1 >= f[j].1 by {
                if i == 0 {
                    assert(f[j] == ft[j - 1]);
                    if ft[0] == t[0] {
                        assert(ft[0].1 <= b[0].1);
                    }
                    assert(ft[0].1 <= b[0].1);
                } else {
                    assert(f[i] == ft[i - 1]);
                    assert(f[j] == ft[j - 1]);
                }
            }
        }
    }
}

pub proof fn lema_ordenar_descendente(s: Seq<Par>)
    ensures
        descendente(ordenar(s)),
        ordenar(s).len() == s.len(),
    decreases s.len(),
{
    if s.len() > 0 {
        lema_ordenar_descendente(s.drop_last());
        lema_fusion_descendente(ordenar(s.drop_last()), seq![s.last()]);
        lema_fusion_len(ordenar(s.drop_last()), seq![s.last()]);
    }
}

pub proof fn lema_top_acotado(s: Seq<Par>)
    ensures
        descendente(top(s)),
        top(s).len() <= MAX_TOP_RESENAS,
{
    lema_ordenar_descendente(s);
}

/// The top list of a concatenation is the capped merge of the two top lists.
pub proof fn lema_top_concat(a: Seq<Par>, b: Seq<Par>)
    ensures
        top(a + b) == recortar(fusion(top(a), top(b)), MAX_TOP_RESENAS as nat),
{
    lema_ordenar_concat(a, b);
    lema_recorte_fusion(ordenar(a), ordenar(b), MAX_TOP_RESENAS as nat);
}

/// The best pair of a concatenation: the right half's best wins only when
/// strictly heavier.
pub proof fn lema_mejor_concat(a: Seq<Par>, b: Seq<Par>)
    requires
        a.len() > 0,
        b.len() > 0,
    ensures
        mejor(a + b) == (if mejor(b).1 > mejor(a).1 {
            mejor(b)
        } else {
            mejor(a)
        }),
    decreases b.len(),
{
    if b.len() == 1 {
        assert((a + b).drop_last() =~= a);
    } else {
        assert((a + b).drop_last() =~= a + b.drop_last());
        lema_mejor_concat(a, b.drop_last());
    }
}

/// Sum of a sequence of counts.
pub open spec fn suma(s: Seq<int>) -> int
    decreases s.len(),
{
    if s.len() == 0 {
        0
    } else {
        suma(s.drop_last()) + s.last()
    }
}

pub proof fn lema_suma_push(s: Seq<int>, x: int)
    ensures
        suma(s.push(x)) == suma(s) + x,
{
    assert(s.push(x).drop_last() =~= s);
}

pub proof fn lema_suma_update(s: Seq<int>, j: int, x: int)
    requires
        0 <= j < s.len(),
    ensures
        suma(s.update(j, x)) == suma(s) - s[j] + x,
    decreases s.len(),
{
    if j == s.len() - 1 {
        assert(s.update(j, x).drop_last() =~= s.drop_last());
    } else {
        assert(s.update(j, x).drop_last() =~= s.drop_last().update(j, x));
        lema_suma_update(s.drop_last(), j, x);
    }
}

} // verus!
