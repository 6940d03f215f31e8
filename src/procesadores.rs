//! Decoding of raw records and the batch stage: a batch of records becomes the
//! statistics of its valid records.
use vstd::prelude::*;
use crate::estadisticas::{EstadisticasGlobales, EstadisticasParciales};
use crate::modelo::Registro;

verus! {

broadcast use vstd::seq_lib::group_seq_properties;

/// Number of records that make a full batch.
pub const CHUNK_SIZE: usize = 100_000;

/// One raw row: entity, category, text, and the weight as it was read.
pub struct Resena {
    pub nombre_juego: String,
    pub idioma: String,
    pub texto: String,
    pub votos_utiles: String,
}

pub open spec fn es_digito(c: char) -> bool {
    '0' <= c <= '9'
}

/// Value of a string of decimal digits.
pub open spec fn valor_digitos(s: Seq<char>) -> nat
    decreases s.len(),
{
    if s.len() == 0 {
        0
    } else {
        valor_digitos(s.drop_last()) * 10 + ((s.last() as u32) - ('0' as u32)) as nat
    }
}

/// The number that `s` writes in decimal, with an optional leading `+`, when it
/// is at most `max`; `None` for anything else (empty, a sign alone, another
/// character, a larger value).
pub open spec fn valor_decimal(s: Seq<char>, max: nat) -> Option<nat> {
    let d = if s.len() > 0 && s[0] == '+' {
        s.drop_first()
    } else {
        s
    };
    if d.len() > 0 && (forall|i: int| 0 <= i < d.len() ==> es_digito(#[trigger] d[i]))
        && valor_digitos(d) <= max {
        Some(valor_digitos(d))
    } else {
        None
    }
}

/// Relies on `str::parse::<u32>`: it accepts exactly an optional `+` followed
/// by one or more ASCII digits whose value fits in a `u32`.
#[verifier::external_body]
fn parsear_u32(s: &str) -> (r: Option<u32>)
    ensures
        r matches Some(v) ==> valor_decimal(s@, u32::MAX as nat) == Some(v as nat),
        r is None ==> valor_decimal(s@, u32::MAX as nat) is None,
{
    s.parse::<u32>().ok()
}

/// The record a row stands for, when its weight field is a number.
pub open spec fn registro_de(x: Resena) -> Option<Registro> {
    match valor_decimal(x.votos_utiles@, u32::MAX as nat) {
        Some(v) => Some(
            Registro { juego: x.nombre_juego@, idioma: x.idioma@, texto: x.texto@, votos: v as u32 },
        ),
        None => None,
    }
}

/// The records of the rows whose weight field is a number, in row order.
pub open spec fn validos(s: Seq<Resena>) -> Seq<Registro>
    decreases s.len(),
{
    if s.len() == 0 {
        Seq::empty()
    } else {
        match registro_de(s.last()) {
            Some(r) => validos(s.drop_last()).push(r),
            None => validos(s.drop_last()),
        }
    }
}

/// Statistics of one batch. A row whose weight field is not a number is left
/// out of every statistic.
pub fn procesar_chunk(chunk: Vec<Resena>) -> (r: EstadisticasParciales)
    ensures
        r.wf(),
        r.registros@ == validos(chunk@),
{
    let mut stats = EstadisticasGlobales::new();
    let mut i: usize = 0;
    while i < chunk.len()
        invariant
            i <= chunk.len(),
            stats.wf(),
            stats.registros@ == validos(chunk@.take(i as int)),
            stats.registros@.len() <= i,
        decreases chunk.len() - i,
    {
        let resena = &chunk[i];
        let ghost h0 = stats.registros@;
        proof {
            assert(chunk@.take(i + 1).drop_last() =~= chunk@.take(i as int));
            assert(chunk@.take(i + 1).last() == chunk@[i as int]);
        }
        match parsear_u32(resena.votos_utiles.as_str()) {
            Some(votos) => {
                let unidad = EstadisticasGlobales::de_registro(
                    &resena.nombre_juego,
                    &resena.idioma,
                    &resena.texto,
                    votos,
                );
                unidad.merge_into(&mut stats);
                assert(stats.registros@ =~= h0.push(unidad.registros@[0]));
                assert(registro_de(chunk@[i as int]) == Some(
                    Registro {
                        juego: resena.nombre_juego@,
                        idioma: resena.idioma@,
                        texto: resena.texto@,
                        votos: votos,
                    },
                ));
            },
            None => {
                assert(registro_de(chunk@[i as int]) is None);
            },
        }
        i = i + 1;
    }
    assert(chunk@.take(i as int) =~= chunk@);
    stats
}

/// Adds `resena` to the batch being filled. When the batch reaches `tamano`
/// rows it is handed back whole and `lote` starts empty again.
pub fn acumular_en_lote(lote: &mut Vec<Resena>, resena: Resena, tamano: usize) -> (r: Option<
    Vec<Resena>,
>)
    requires
        old(lote).len() < tamano,
    ensures
        old(lote).len() + 1 == tamano ==> (r matches Some(l) && l@ == old(lote)@.push(resena)
            && final(lote)@.len() == 0),
        old(lote).len() + 1 < tamano ==> r is None && final(lote)@ == old(lote)@.push(resena),
{
    lote.push(resena);
    if lote.len() == tamano {
        let mut lleno: Vec<Resena> = Vec::new();
        std::mem::swap(lote, &mut lleno);
        Some(lleno)
    } else {
        None
    }
}

/// The records of a sequence of partial statistics, one after the other.
pub open spec fn registros_de(p: Seq<EstadisticasParciales>) -> Seq<Registro>
    decreases p.len(),
{
    if p.len() == 0 {
        Seq::empty()
    } else {
        registros_de(p.drop_last()) + p.last().registros@
    }
}

proof fn lema_registros_prefijo(p: Seq<EstadisticasParciales>, i: int)
    requires
        0 <= i <= p.len(),
    ensures
        registros_de(p.take(i)).len() <= registros_de(p).len(),
    decreases p.len() - i,
{
    if i < p.len() {
        lema_registros_prefijo(p, i + 1);
        assert(p.take(i + 1).drop_last() =~= p.take(i));
    } else {
        assert(p.take(i) =~= p);
    }
}

/// Folds the partial statistics into one, in the order given: the result
/// describes the records of the first partial, then those of the second, and
/// so on. Folding batches in the order they were produced therefore gives the
/// statistics of all the rows in that order, whatever the number of workers
/// that built the partials.
pub fn fusionar_parciales(parciales: &Vec<EstadisticasParciales>) -> (r: EstadisticasGlobales)
    requires
        forall|i: int| 0 <= i < parciales@.len() ==> (#[trigger] parciales@[i]).wf(),
        registros_de(parciales@).len() <= usize::MAX,
    ensures
        r.wf(),
        r.registros@ == registros_de(parciales@),
{
    let mut global = EstadisticasGlobales::new();
    let mut i: usize = 0;
    while i < parciales.len()
        invariant
            i <= parciales.len(),
            forall|k: int| 0 <= k < parciales@.len() ==> (#[trigger] parciales@[k]).wf(),
            registros_de(parciales@).len() <= usize::MAX,
            global.wf(),
            global.registros@ == registros_de(parciales@.take(i as int)),
        decreases parciales.len() - i,
    {
        proof {
            assert(parciales@.take(i + 1).drop_last() =~= parciales@.take(i as int));
            assert(parciales@.take(i + 1).last() == parciales@[i as int]);
            lema_registros_prefijo(parciales@, i + 1);
        }
        parciales[i].merge_into(&mut global);
        i = i + 1;
    }
    assert(parciales@.take(i as int) =~= parciales@);
    global
}

} // verus!
