//! Properties of the statistics that hold for every input: counts are
//! conserved, top lists stay bounded and sorted, capping commutes with merging,
//! and the statistics depend on the records alone.
use vstd::prelude::*;
use crate::estadisticas::{
    EstadisticasGlobales, cantidades, idiomas_ok, lista, totales_idiomas, totales_juegos,
};
use crate::modelo::{
    MAX_TOP_RESENAS, Par, Registro, de_idioma, de_juego, descendente, fusion, lema_recorte_fusion,
    lema_top_acotado, pares, recortar, suma,
};
use crate::procesadores::{Resena, registro_de, validos};

verus! {

broadcast use vstd::seq_lib::group_seq_properties;

/// Count conservation: the entity totals add up to the number of records that
/// were counted, and so do the category totals.
pub proof fn ley_conservacion(e: &EstadisticasGlobales)
    requires
        e.wf(),
    ensures
        suma(totales_juegos(e.juegos@)) == e.registros@.len(),
        suma(totales_idiomas(e.por_idioma@)) == e.registros@.len(),
{
}

/// The records counted from a sequence of rows are exactly its rows whose
/// weight field is a number.
pub proof fn ley_validos_cuenta(s: Seq<Resena>)
    ensures
        validos(s).len() == s.filter(|x: Resena| registro_de(x) is Some).len(),
    decreases s.len(),
{
    reveal(Seq::filter);
    if s.len() > 0 {
        ley_validos_cuenta(s.drop_last());
    }
}

/// Rows split into consecutive batches give, batch after batch, the records of
/// all the rows in order: how the rows are batched does not change what is
/// counted.
pub proof fn ley_validos_concat(a: Seq<Resena>, b: Seq<Resena>)
    ensures
        validos(a + b) == validos(a) + validos(b),
    decreases b.len(),
{
    if b.len() == 0 {
        assert(a + b =~= a);
        assert(validos(a) + validos(b) =~= validos(a));
    } else {
        assert((a + b).drop_last() =~= a + b.drop_last());
        assert((a + b).last() == b.last());
        ley_validos_concat(a, b.drop_last());
        match registro_de(b.last()) {
            Some(r) => {
                assert(validos(a) + validos(b.drop_last()).push(r) =~= (validos(a) + validos(
                    b.drop_last(),
                )).push(r));
            },
            None => {},
        }
    }
}

/// Category sums: an entity's total is the sum of its per-category counts.
pub proof fn ley_suma_por_idioma(e: &EstadisticasGlobales, i: int)
    requires
        e.wf(),
        0 <= i < e.juegos@.len(),
    ensures
        e.juegos@[i].cantidad_total == suma(cantidades(e.juegos@[i].por_idioma@)),
{
    assert(e.juegos@[i].corresponde_a(de_juego(e.registros@, e.juegos@[i].juego@)));
}

/// Bounded top lists: every category's top list holds at most ten records and
/// its weights never increase.
pub proof fn ley_top_acotado(e: &EstadisticasGlobales, i: int)
    requires
        e.wf(),
        0 <= i < e.por_idioma@.len(),
    ensures
        e.por_idioma@[i].top_reviews@.len() <= MAX_TOP_RESENAS,
        descendente(lista(e.por_idioma@[i].top_reviews@)),
{
    let c = e.por_idioma@[i];
    assert(c.corresponde_a(de_idioma(e.registros@, c.idioma@)));
    lema_top_acotado(pares(de_idioma(e.registros@, c.idioma@)));
}

/// Idempotent truncation: merging two lists capped at ten and capping again
/// gives what capping the merge of the uncapped lists gives.
pub proof fn ley_recorte_idempotente(a: Seq<Par>, b: Seq<Par>)
    ensures
        recortar(
            fusion(recortar(a, MAX_TOP_RESENAS as nat), recortar(b, MAX_TOP_RESENAS as nat)),
            MAX_TOP_RESENAS as nat,
        ) == recortar(fusion(a, b), MAX_TOP_RESENAS as nat),
{
    lema_recorte_fusion(a, b, MAX_TOP_RESENAS as nat);
}

/// `a` and `b` hold the same entities and categories with the same counts,
/// best records and top lists (entries may sit in another order).
pub open spec fn mismas_estadisticas(a: &EstadisticasGlobales, b: &EstadisticasGlobales) -> bool {
    &&& forall|i: int|
        0 <= i < a.juegos@.len() ==> exists|j: int|
            0 <= j < b.juegos@.len() && #[trigger] b.juegos@[j].juego@ == #[trigger] a.juegos@[i].juego@
    &&& forall|j: int|
        0 <= j < b.juegos@.len() ==> exists|i: int|
            0 <= i < a.juegos@.len() && #[trigger] a.juegos@[i].juego@ == #[trigger] b.juegos@[j].juego@
    &&& forall|i: int, j: int|
        0 <= i < a.juegos@.len() && 0 <= j < b.juegos@.len() && #[trigger] a.juegos@[i].juego@
            == #[trigger] b.juegos@[j].juego@ ==> a.juegos@[i].cantidad_total
            == b.juegos@[j].cantidad_total && mismos_conteos(a.juegos@[i], b.juegos@[j])
    &&& forall|i: int|
        0 <= i < a.por_idioma@.len() ==> exists|j: int|
            0 <= j < b.por_idioma@.len() && #[trigger] b.por_idioma@[j].idioma@
                == #[trigger] a.por_idioma@[i].idioma@
    &&& forall|j: int|
        0 <= j < b.por_idioma@.len() ==> exists|i: int|
            0 <= i < a.por_idioma@.len() && #[trigger] a.por_idioma@[i].idioma@
                == #[trigger] b.por_idioma@[j].idioma@
    &&& forall|i: int, j: int|
        0 <= i < a.por_idioma@.len() && 0 <= j < b.por_idioma@.len() && #[trigger] a.por_idioma@[i].idioma@
            == #[trigger] b.por_idioma@[j].idioma@ ==> a.por_idioma@[i].cantidad_total
            == b.por_idioma@[j].cantidad_total && lista(a.por_idioma@[i].top_reviews@) == lista(
            b.por_idioma@[j].top_reviews@,
        )
}

/// Two entries of one entity agree on every category: same categories, and
/// per category the same count and best record.
pub open spec fn mismos_conteos(x: crate::estadisticas::InfoJuego, y: crate::estadisticas::InfoJuego) -> bool {
    &&& forall|i: int|
        0 <= i < x.por_idioma@.len() ==> exists|j: int|
            0 <= j < y.por_idioma@.len() && #[trigger] y.por_idioma@[j].idioma@
                == #[trigger] x.por_idioma@[i].idioma@
    &&& forall|j: int|
        0 <= j < y.por_idioma@.len() ==> exists|i: int|
            0 <= i < x.por_idioma@.len() && #[trigger] x.por_idioma@[i].idioma@
                == #[trigger] y.por_idioma@[j].idioma@
    &&& forall|i: int, j: int|
        0 <= i < x.por_idioma@.len() && 0 <= j < y.por_idioma@.len() && #[trigger] x.por_idioma@[i].idioma@
            == #[trigger] y.por_idioma@[j].idioma@ ==> x.por_idioma@[i].cantidad
            == y.por_idioma@[j].cantidad && x.por_idioma@[i].mejor@ == y.por_idioma@[j].mejor@
}

/// Repeatability and independence from the worker count: statistics of the
/// same records, in the same order, are the same statistics, however the
/// records were batched and whichever run produced them.
pub proof fn ley_determinismo(a: &EstadisticasGlobales, b: &EstadisticasGlobales)
    requires
        a.wf(),
        b.wf(),
        a.registros@ == b.registros@,
    ensures
        mismas_estadisticas(a, b),
{
    let h = a.registros@;
    assert forall|i: int| 0 <= i < a.juegos@.len() implies exists|j: int|
        0 <= j < b.juegos@.len() && #[trigger] b.juegos@[j].juego@ == #[trigger] a.juegos@[i].juego@ by {
        assert(a.juegos@[i].corresponde_a(de_juego(h, a.juegos@[i].juego@)));
        assert(de_juego(h, a.juegos@[i].juego@).len() > 0);
    }
    assert forall|j: int| 0 <= j < b.juegos@.len() implies exists|i: int|
        0 <= i < a.juegos@.len() && #[trigger] a.juegos@[i].juego@ == #[trigger] b.juegos@[j].juego@ by {
        assert(b.juegos@[j].corresponde_a(de_juego(h, b.juegos@[j].juego@)));
        assert(de_juego(h, b.juegos@[j].juego@).len() > 0);
    }
    assert forall|i: int| 0 <= i < a.por_idioma@.len() implies exists|j: int|
        0 <= j < b.por_idioma@.len() && #[trigger] b.por_idioma@[j].idioma@
            == #[trigger] a.por_idioma@[i].idioma@ by {
        assert(a.por_idioma@[i].corresponde_a(de_idioma(h, a.por_idioma@[i].idioma@)));
        assert(de_idioma(h, a.por_idioma@[i].idioma@).len() > 0);
    }
    assert forall|j: int| 0 <= j < b.por_idioma@.len() implies exists|i: int|
        0 <= i < a.por_idioma@.len() && #[trigger] a.por_idioma@[i].idioma@
            == #[trigger] b.por_idioma@[j].idioma@ by {
        assert(b.por_idioma@[j].corresponde_a(de_idioma(h, b.por_idioma@[j].idioma@)));
        assert(de_idioma(h, b.por_idioma@[j].idioma@).len() > 0);
    }
    assert forall|i: int, j: int|
        0 <= i < a.por_idioma@.len() && 0 <= j < b.por_idioma@.len() && #[trigger] a.por_idioma@[i].idioma@
            == #[trigger] b.por_idioma@[j].idioma@ implies a.por_idioma@[i].cantidad_total
        == b.por_idioma@[j].cantidad_total && lista(a.por_idioma@[i].top_reviews@) == lista(
        b.por_idioma@[j].top_reviews@,
    ) by {
        assert(a.por_idioma@[i].corresponde_a(de_idioma(h, a.por_idioma@[i].idioma@)));
        assert(b.por_idioma@[j].corresponde_a(de_idioma(h, b.por_idioma@[j].idioma@)));
    }
    assert forall|i: int, j: int|
        0 <= i < a.juegos@.len() && 0 <= j < b.juegos@.len() && #[trigger] a.juegos@[i].juego@
            == #[trigger] b.juegos@[j].juego@ implies a.juegos@[i].cantidad_total
        == b.juegos@[j].cantidad_total && mismos_conteos(a.juegos@[i], b.juegos@[j]) by {
        let s = de_juego(h, a.juegos@[i].juego@);
        assert(a.juegos@[i].corresponde_a(s));
        assert(b.juegos@[j].corresponde_a(de_juego(h, b.juegos@[j].juego@)));
        lema_mismos_conteos(a.juegos@[i], b.juegos@[j], s);
    }
}

proof fn lema_mismos_conteos(
    x: crate::estadisticas::InfoJuego,
    y: crate::estadisticas::InfoJuego,
    s: Seq<crate::modelo::Registro>,
)
    requires
        x.corresponde_a(s),
        y.corresponde_a(s),
    ensures
        mismos_conteos(x, y),
{
    assert forall|p: int| 0 <= p < x.por_idioma@.len() implies exists|q: int|
        0 <= q < y.por_idioma@.len() && #[trigger] y.por_idioma@[q].idioma@
            == #[trigger] x.por_idioma@[p].idioma@ by {
        assert(x.por_idioma@[p].corresponde_a(de_idioma(s, x.por_idioma@[p].idioma@)));
        assert(de_idioma(s, x.por_idioma@[p].idioma@).len() > 0);
    }
    assert forall|q: int| 0 <= q < y.por_idioma@.len() implies exists|p: int|
        0 <= p < x.por_idioma@.len() && #[trigger] x.por_idioma@[p].idioma@
            == #[trigger] y.por_idioma@[q].idioma@ by {
        assert(y.por_idioma@[q].corresponde_a(de_idioma(s, y.por_idioma@[q].idioma@)));
        assert(de_idioma(s, y.por_idioma@[q].idioma@).len() > 0);
    }
    assert forall|p: int, q: int|
        0 <= p < x.por_idioma@.len() && 0 <= q < y.por_idioma@.len() && #[trigger] x.por_idioma@[p].idioma@
            == #[trigger] y.por_idioma@[q].idioma@ implies x.por_idioma@[p].cantidad
        == y.por_idioma@[q].cantidad && x.por_idioma@[p].mejor@ == y.por_idioma@[q].mejor@ by {
        assert(x.por_idioma@[p].corresponde_a(de_idioma(s, x.por_idioma@[p].idioma@)));
        assert(y.por_idioma@[q].corresponde_a(de_idioma(s, y.por_idioma@[q].idioma@)));
    }
}

} // verus!
