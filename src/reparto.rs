//! How one category's records spread over the entities: a category's total
//! is the sum of the entities' counts for it.
use vstd::prelude::*;
use crate::estadisticas::{ConteoIdioma, EstadisticasGlobales, InfoJuego};
use crate::modelo::{Registro, de_idioma, de_juego, lema_suma_update, suma};

verus! {

broadcast use vstd::seq_lib::group_seq_properties;

/// Count of category `c` in an entity's per-category entries; zero when the
/// entity has none.
pub open spec fn cuenta_en(v: Seq<ConteoIdioma>, c: Seq<char>) -> int {
    if exists|k: int| 0 <= k < v.len() && #[trigger] v[k].idioma@ == c {
        v[choose|k: int| 0 <= k < v.len() && #[trigger] v[k].idioma@ == c].cantidad as int
    } else {
        0
    }
}

proof fn lema_filtro_push(s: Seq<Registro>, r: Registro, p: spec_fn(Registro) -> bool)
    ensures
        s.push(r).filter(p) == (if p(r) {
            s.filter(p).push(r)
        } else {
            s.filter(p)
        }),
{
    reveal(Seq::filter);
    assert(s.push(r).drop_last() =~= s);
}

proof fn lema_filtros_conmutan(h: Seq<Registro>, e: Seq<char>, c: Seq<char>)
    ensures
        de_idioma(de_juego(h, e), c) == de_juego(de_idioma(h, c), e),
    decreases h.len(),
{
    let pj = |x: Registro| x.juego == e;
    let pi = |x: Registro| x.idioma == c;
    if h.len() == 0 {
        reveal(Seq::filter);
        assert(de_juego(h, e) =~= h);
        assert(de_idioma(h, c) =~= h);
    } else {
        let h0 = h.drop_last();
        let r = h.last();
        assert(h0.push(r) =~= h);
        lema_filtros_conmutan(h0, e, c);
        lema_filtro_push(h0, r, pj);
        lema_filtro_push(h0, r, pi);
        lema_filtro_push(h0.filter(pj), r, pi);
        lema_filtro_push(h0.filter(pi), r, pj);
    }
}

proof fn lema_contenido_idioma(h: Seq<Registro>, c: Seq<char>, p: int)
    requires
        0 <= p < de_idioma(h, c).len(),
    ensures
        h.contains(de_idioma(h, c)[p]),
    decreases h.len(),
{
    let pi = |x: Registro| x.idioma == c;
    let h0 = h.drop_last();
    let r = h.last();
    assert(h0.push(r) =~= h);
    lema_filtro_push(h0, r, pi);
    if r.idioma == c && p == de_idioma(h0, c).len() {
        assert(h[h.len() - 1] == r);
    } else {
        lema_contenido_idioma(h0, c, p);
        let q = choose|q: int| 0 <= q < h0.len() && h0[q] == de_idioma(h0, c)[p];
        assert(h[q] == h0[q]);
    }
}

proof fn lema_suma_ceros(s: Seq<int>)
    requires
        forall|i: int| 0 <= i < s.len() ==> s[i] == 0,
    ensures
        suma(s) == 0,
    decreases s.len(),
{
    if s.len() > 0 {
        lema_suma_ceros(s.drop_last());
    }
}

pub open spec fn cuentas_por_juego(g: Seq<Registro>, claves: Seq<Seq<char>>) -> Seq<int> {
    claves.map_values(|e: Seq<char>| de_juego(g, e).len() as int)
}

/// Records split by entity: with distinct keys that cover every entity of `g`,
/// the per-entity counts add up to the length of `g`.
proof fn lema_particion(g: Seq<Registro>, claves: Seq<Seq<char>>)
    requires
        forall|i: int, j: int| 0 <= i < j < claves.len() ==> claves[i] != claves[j],
        forall|i: int| 0 <= i < g.len() ==> claves.contains(#[trigger] g[i].juego),
    ensures
        suma(cuentas_por_juego(g, claves)) == g.len(),
    decreases g.len(),
{
    reveal(Seq::filter);
    if g.len() == 0 {
        lema_suma_ceros(cuentas_por_juego(g, claves));
    } else {
        let r = g.last();
        let g0 = g.drop_last();
        assert forall|i: int| 0 <= i < g0.len() implies claves.contains(#[trigger] g0[i].juego) by {
            assert(g0[i] == g[i]);
        }
        lema_particion(g0, claves);
        assert(claves.contains(g[g.len() - 1].juego));
        let k = choose|k: int| 0 <= k < claves.len() && claves[k] == r.juego;
        let antes = cuentas_por_juego(g0, claves);
        lema_suma_update(antes, k, antes[k] + 1);
        assert(cuentas_por_juego(g, claves) =~= antes.update(k, antes[k] + 1));
    }
}

/// Category sums across entities: a category's total is the sum, over all
/// entities, of that entity's count for the category.
pub proof fn ley_suma_por_juegos(e: &EstadisticasGlobales, i: int)
    requires
        e.wf(),
        0 <= i < e.por_idioma@.len(),
    ensures
        e.por_idioma@[i].cantidad_total == suma(
            e.juegos@.map_values(|x: InfoJuego| cuenta_en(x.por_idioma@, e.por_idioma@[i].idioma@)),
        ),
{
    let h = e.registros@;
    let c = e.por_idioma@[i].idioma@;
    let g = de_idioma(h, c);
    let claves = e.juegos@.map_values(|x: InfoJuego| x.juego@);
    assert(e.por_idioma@[i].corresponde_a(g));
    assert forall|p: int| 0 <= p < g.len() implies claves.contains(#[trigger] g[p].juego) by {
        lema_contenido_idioma(h, c, p);
        let q = choose|q: int| 0 <= q < h.len() && h[q] == g[p];
        assert(de_juego(h, g[p].juego).contains(h[q]));
        let k = choose|k: int| 0 <= k < e.juegos@.len() && #[trigger] e.juegos@[k].juego@ == g[p].juego;
        assert(claves[k] == g[p].juego);
    }
    assert forall|a: int, b: int| 0 <= a < b < claves.len() implies claves[a] != claves[b] by {
        assert(e.juegos@[a].juego@ != e.juegos@[b].juego@);
    }
    lema_particion(g, claves);
    let cuentas = e.juegos@.map_values(|x: InfoJuego| cuenta_en(x.por_idioma@, c));
    assert forall|k: int| 0 <= k < cuentas.len() implies cuentas[k] == cuentas_por_juego(g, claves)[k] by {
        let x = e.juegos@[k];
        let s = de_juego(h, x.juego@);
        assert(x.corresponde_a(s));
        lema_filtros_conmutan(h, x.juego@, c);
        if exists|q: int| 0 <= q < x.por_idioma@.len() && #[trigger] x.por_idioma@[q].idioma@ == c {
            let q = choose|q: int| 0 <= q < x.por_idioma@.len() && #[trigger] x.por_idioma@[q].idioma@ == c;
            assert(x.por_idioma@[q].corresponde_a(de_idioma(s, c)));
        } else {
            assert(de_idioma(s, c).len() == 0);
        }
    }
    assert(cuentas =~= cuentas_por_juego(g, claves));
}

} // verus!
