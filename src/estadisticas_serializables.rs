//! The report: the top entities with their top categories and best records,
//! and the top categories with their top lists, in a fixed order.
use vstd::prelude::*;
use crate::estadisticas::{ConteoIdioma, EstadisticasGlobales, InfoIdioma, InfoJuego, MejorReview, lista};
use crate::modelo::{MAX_TOP_RESENAS, recortar};
use crate::ranking::{Clave, claves, es_top, seleccionar_top};

verus! {

broadcast use vstd::seq_lib::group_seq_properties;

/// Entities in the report.
pub const MAX_TOP_JUEGOS: usize = 3;

/// Categories per entity in the report.
pub const MAX_TOP_REVIEWS_JUEGOS: usize = 3;

/// Categories in the report.
pub const MAX_TOP_IDIOMAS: usize = 3;

/// Identifier stamped on every report.
pub const PADRON: u32 = 110675;

/// A selected entity: its total and its best categories, best first.
pub struct InfoJuegoSerializable {
    pub juego: String,
    pub cantidad_total: usize,
    pub por_idioma: Vec<ConteoIdioma>,
}

/// A selected category: its total and its top list.
pub struct InfoIdiomaSerializable {
    pub idioma: String,
    pub cantidad_total: usize,
    pub top_reviews: Vec<MejorReview>,
}

/// The selected entities and categories, best first.
pub struct EstadisticasGlobalesSerializable {
    pub juegos: Vec<InfoJuegoSerializable>,
    pub idiomas: Vec<InfoIdiomaSerializable>,
}

pub open spec fn claves_juegos(v: Seq<InfoJuego>) -> Seq<Clave> {
    v.map_values(|x: InfoJuego| (x.cantidad_total as nat, x.juego@))
}

pub open spec fn claves_conteos(v: Seq<ConteoIdioma>) -> Seq<Clave> {
    v.map_values(|x: ConteoIdioma| (x.cantidad as nat, x.idioma@))
}

pub open spec fn claves_idiomas(v: Seq<InfoIdioma>) -> Seq<Clave> {
    v.map_values(|x: InfoIdioma| (x.cantidad_total as nat, x.idioma@))
}

pub open spec fn misma_entrada(a: ConteoIdioma, b: ConteoIdioma) -> bool {
    a.idioma@ == b.idioma@ && a.cantidad == b.cantidad && a.mejor@ == b.mejor@
}

/// `r` summarises the entity `x`: same name and total, and its best
/// categories, best first (most records, then smallest name).
pub open spec fn resume_juego(r: InfoJuegoSerializable, x: InfoJuego) -> bool {
    &&& r.juego@ == x.juego@
    &&& r.cantidad_total == x.cantidad_total
    &&& exists|sel: Seq<usize>|
        es_top(claves_conteos(x.por_idioma@), sel, MAX_TOP_REVIEWS_JUEGOS as nat) && sel.len()
            == r.por_idioma@.len() && forall|a: int|
            0 <= a < sel.len() ==> misma_entrada(
                #[trigger] r.por_idioma@[a],
                x.por_idioma@[sel[a] as int],
            )
}

/// `r` summarises the category `x`: same name and total, and at most the
/// first ten records of its top list.
pub open spec fn resume_idioma(r: InfoIdiomaSerializable, x: InfoIdioma) -> bool {
    &&& r.idioma@ == x.idioma@
    &&& r.cantidad_total == x.cantidad_total
    &&& lista(r.top_reviews@) == recortar(lista(x.top_reviews@), MAX_TOP_RESENAS as nat)
}

/// `r` holds the best entities of `est`, best first (largest total, then
/// smallest name), each summarised.
pub open spec fn top_juegos_de(r: Seq<InfoJuegoSerializable>, est: EstadisticasGlobales) -> bool {
    exists|sel: Seq<usize>|
        es_top(claves_juegos(est.juegos@), sel, MAX_TOP_JUEGOS as nat) && sel.len() == r.len()
            && forall|a: int| 0 <= a < sel.len() ==> resume_juego(#[trigger] r[a], est.juegos@[sel[a] as int])
}

/// `r` holds the best categories of `est`, best first (largest total, then
/// smallest name), each with its top list.
pub open spec fn top_idiomas_de(r: Seq<InfoIdiomaSerializable>, est: EstadisticasGlobales) -> bool {
    exists|sel: Seq<usize>|
        es_top(claves_idiomas(est.por_idioma@), sel, MAX_TOP_IDIOMAS as nat) && sel.len() == r.len()
            && forall|a: int|
            0 <= a < sel.len() ==> resume_idioma(#[trigger] r[a], est.por_idioma@[sel[a] as int])
}

fn claves_de_juegos(v: &Vec<InfoJuego>) -> (r: Vec<(usize, String)>)
    ensures
        claves(r@) == claves_juegos(v@),
{
    let mut r: Vec<(usize, String)> = Vec::new();
    let mut i: usize = 0;
    while i < v.len()
        invariant
            i <= v.len(),
            claves(r@) == claves_juegos(v@).take(i as int),
        decreases v.len() - i,
    {
        let ghost r0 = r@;
        r.push((v[i].cantidad_total, v[i].juego.clone()));
        proof {
            assert(claves(r@) =~= claves(r0).push((v@[i as int].cantidad_total as nat, v@[i as int].juego@)));
            assert(claves_juegos(v@).take(i + 1) =~= claves_juegos(v@).take(i as int).push(
                (v@[i as int].cantidad_total as nat, v@[i as int].juego@),
            ));
        }
        i = i + 1;
    }
    assert(claves_juegos(v@).take(i as int) =~= claves_juegos(v@));
    r
}

fn claves_de_conteos(v: &Vec<ConteoIdioma>) -> (r: Vec<(usize, String)>)
    ensures
        claves(r@) == claves_conteos(v@),
{
    let mut r: Vec<(usize, String)> = Vec::new();
    let mut i: usize = 0;
    while i < v.len()
        invariant
            i <= v.len(),
            claves(r@) == claves_conteos(v@).take(i as int),
        decreases v.len() - i,
    {
        let ghost r0 = r@;
        r.push((v[i].cantidad, v[i].idioma.clone()));
        proof {
            assert(claves(r@) =~= claves(r0).push((v@[i as int].cantidad as nat, v@[i as int].idioma@)));
            assert(claves_conteos(v@).take(i + 1) =~= claves_conteos(v@).take(i as int).push(
                (v@[i as int].cantidad as nat, v@[i as int].idioma@),
            ));
        }
        i = i + 1;
    }
    assert(claves_conteos(v@).take(i as int) =~= claves_conteos(v@));
    r
}

fn claves_de_idiomas(v: &Vec<InfoIdioma>) -> (r: Vec<(usize, String)>)
    ensures
        claves(r@) == claves_idiomas(v@),
{
    let mut r: Vec<(usize, String)> = Vec::new();
    let mut i: usize = 0;
    while i < v.len()
        invariant
            i <= v.len(),
            claves(r@) == claves_idiomas(v@).take(i as int),
        decreases v.len() - i,
    {
        let ghost r0 = r@;
        r.push((v[i].cantidad_total, v[i].idioma.clone()));
        proof {
            assert(claves(r@) =~= claves(r0).push((v@[i as int].cantidad_total as nat, v@[i as int].idioma@)));
            assert(claves_idiomas(v@).take(i + 1) =~= claves_idiomas(v@).take(i as int).push(
                (v@[i as int].cantidad_total as nat, v@[i as int].idioma@),
            ));
        }
        i = i + 1;
    }
    assert(claves_idiomas(v@).take(i as int) =~= claves_idiomas(v@));
    r
}

/// Summary of one entity: its best categories, best first.
fn resumir_juego(x: &InfoJuego) -> (r: InfoJuegoSerializable)
    ensures
        resume_juego(r, *x),
{
    let cl = claves_de_conteos(&x.por_idioma);
    let sel = seleccionar_top(&cl, MAX_TOP_REVIEWS_JUEGOS);
    let mut por_idioma: Vec<ConteoIdioma> = Vec::new();
    let mut a: usize = 0;
    while a < sel.len()
        invariant
            a <= sel.len(),
            es_top(claves_conteos(x.por_idioma@), sel@, MAX_TOP_REVIEWS_JUEGOS as nat),
            por_idioma.len() == a,
            forall|b: int|
                0 <= b < a ==> misma_entrada(#[trigger] por_idioma@[b], x.por_idioma@[sel@[b] as int]),
        decreases sel.len() - a,
    {
        assert(sel@[a as int] < x.por_idioma@.len());
        por_idioma.push(x.por_idioma[sel[a]].copiar());
        a = a + 1;
    }
    let r = InfoJuegoSerializable {
        juego: x.juego.clone(),
        cantidad_total: x.cantidad_total,
        por_idioma,
    };
    assert(forall|b: int| 0 <= b < sel@.len() ==> misma_entrada(#[trigger] r.por_idioma@[b], x.por_idioma@[sel@[b] as int]));
    r
}

/// The best entities, best first, each with its best categories.
pub fn filtrar_top_juegos_con_reviews(est: &EstadisticasGlobales) -> (r: Vec<InfoJuegoSerializable>)
    ensures
        top_juegos_de(r@, *est),
{
    let cl = claves_de_juegos(&est.juegos);
    let sel = seleccionar_top(&cl, MAX_TOP_JUEGOS);
    let mut r: Vec<InfoJuegoSerializable> = Vec::new();
    let mut a: usize = 0;
    while a < sel.len()
        invariant
            a <= sel.len(),
            es_top(claves_juegos(est.juegos@), sel@, MAX_TOP_JUEGOS as nat),
            r.len() == a,
            forall|b: int| 0 <= b < a ==> resume_juego(#[trigger] r@[b], est.juegos@[sel@[b] as int]),
        decreases sel.len() - a,
    {
        assert(sel@[a as int] < est.juegos@.len());
        r.push(resumir_juego(&est.juegos[sel[a]]));
        a = a + 1;
    }
    r
}

/// The best categories, best first, each with its top list.
pub fn filtrar_idiomas_serializables(est: &EstadisticasGlobales) -> (r: Vec<InfoIdiomaSerializable>)
    ensures
        top_idiomas_de(r@, *est),
{
    let cl = claves_de_idiomas(&est.por_idioma);
    let sel = seleccionar_top(&cl, MAX_TOP_IDIOMAS);
    let mut r: Vec<InfoIdiomaSerializable> = Vec::new();
    let mut a: usize = 0;
    while a < sel.len()
        invariant
            a <= sel.len(),
            es_top(claves_idiomas(est.por_idioma@), sel@, MAX_TOP_IDIOMAS as nat),
            r.len() == a,
            forall|b: int| 0 <= b < a ==> resume_idioma(#[trigger] r@[b], est.por_idioma@[sel@[b] as int]),
        decreases sel.len() - a,
    {
        assert(sel@[a as int] < est.por_idioma@.len());
        let x = est.por_idioma[sel[a]].copiar();
        let mut top_reviews = x.top_reviews;
        let ghost antes = top_reviews@;
        top_reviews.truncate(MAX_TOP_RESENAS);
        proof {
            if antes.len() > MAX_TOP_RESENAS {
                assert(lista(top_reviews@) =~= lista(antes).take(MAX_TOP_RESENAS as int));
            }
        }
        r.push(InfoIdiomaSerializable {
            idioma: x.idioma,
            cantidad_total: x.cantidad_total,
            top_reviews,
        });
        a = a + 1;
    }
    r
}

/// The report's selections: the best entities and the best categories.
pub fn filtrar_top3(est: &EstadisticasGlobales) -> (r: EstadisticasGlobalesSerializable)
    ensures
        top_juegos_de(r.juegos@, *est),
        top_idiomas_de(r.idiomas@, *est),
{
    let juegos = filtrar_top_juegos_con_reviews(est);
    let idiomas = filtrar_idiomas_serializables(est);
    EstadisticasGlobalesSerializable { juegos, idiomas }
}

/// The report as it is written out.
pub struct SalidaFinal {
    pub padron: u32,
    pub top_games: Vec<TopGame>,
    pub top_languages: Vec<TopLanguage>,
}

/// An entity of the report.
pub struct TopGame {
    pub game: String,
    pub review_count: u32,
    pub languages: Vec<IdiomaPorJuego>,
}

/// A category of an entity of the report, with its best record.
pub struct IdiomaPorJuego {
    pub language: String,
    pub review_count: u32,
    pub top_review: String,
    pub top_review_votes: u32,
}

/// A category of the report.
pub struct TopLanguage {
    pub language: String,
    pub review_count: u32,
    pub top_reviews: Vec<ReviewIdioma>,
}

/// A record of a category's top list in the report.
pub struct ReviewIdioma {
    pub review: String,
    pub votes: u32,
}

pub open spec fn idioma_convertido(r: IdiomaPorJuego, x: ConteoIdioma) -> bool {
    &&& r.language@ == x.idioma@
    &&& r.review_count == x.cantidad as u32
    &&& r.top_review@ == x.mejor.texto@
    &&& r.top_review_votes == x.mejor.votos
}

pub open spec fn claves_resumen_juegos(v: Seq<InfoJuegoSerializable>) -> Seq<Clave> {
    v.map_values(|x: InfoJuegoSerializable| (x.cantidad_total as nat, x.juego@))
}

pub open spec fn claves_resumen_idiomas(v: Seq<InfoIdiomaSerializable>) -> Seq<Clave> {
    v.map_values(|x: InfoIdiomaSerializable| (x.cantidad_total as nat, x.idioma@))
}

/// `r` writes out the entity `x`, its categories ordered by count, largest
/// first, then by name, smallest first.
pub open spec fn juego_convertido(r: TopGame, x: InfoJuegoSerializable) -> bool {
    &&& r.game@ == x.juego@
    &&& r.review_count == x.cantidad_total as u32
    &&& exists|sel: Seq<usize>|
        es_top(claves_conteos(x.por_idioma@), sel, x.por_idioma@.len()) && sel.len()
            == r.languages@.len() && forall|a: int|
            0 <= a < sel.len() ==> idioma_convertido(
                #[trigger] r.languages@[a],
                x.por_idioma@[sel[a] as int],
            )
}

/// `r` writes out the category `x`, its top list in the same order.
pub open spec fn lenguaje_convertido(r: TopLanguage, x: InfoIdiomaSerializable) -> bool {
    &&& r.language@ == x.idioma@
    &&& r.review_count == x.cantidad_total as u32
    &&& r.top_reviews.len() == x.top_reviews.len()
    &&& forall|a: int|
        0 <= a < r.top_reviews.len() ==> (#[trigger] r.top_reviews@[a]).review@
            == x.top_reviews@[a].texto@ && r.top_reviews@[a].votes == x.top_reviews@[a].votos
}

/// `r` writes out every entity of `v`, ordered by total, largest first, then
/// by name, smallest first.
pub open spec fn juegos_convertidos(r: Seq<TopGame>, v: Seq<InfoJuegoSerializable>) -> bool {
    exists|sel: Seq<usize>|
        es_top(claves_resumen_juegos(v), sel, v.len()) && sel.len() == r.len() && forall|a: int|
            0 <= a < sel.len() ==> juego_convertido(#[trigger] r[a], v[sel[a] as int])
}

/// `r` writes out every category of `v`, ordered by total, largest first,
/// then by name, smallest first.
pub open spec fn idiomas_convertidos(r: Seq<TopLanguage>, v: Seq<InfoIdiomaSerializable>) -> bool {
    exists|sel: Seq<usize>|
        es_top(claves_resumen_idiomas(v), sel, v.len()) && sel.len() == r.len() && forall|a: int|
            0 <= a < sel.len() ==> lenguaje_convertido(#[trigger] r[a], v[sel[a] as int])
}

fn claves_de_resumen_juegos(v: &Vec<InfoJuegoSerializable>) -> (r: Vec<(usize, String)>)
    ensures
        claves(r@) == claves_resumen_juegos(v@),
{
    let mut r: Vec<(usize, String)> = Vec::new();
    let mut i: usize = 0;
    while i < v.len()
        invariant
            i <= v.len(),
            claves(r@) == claves_resumen_juegos(v@).take(i as int),
        decreases v.len() - i,
    {
        let ghost r0 = r@;
        r.push((v[i].cantidad_total, v[i].juego.clone()));
        proof {
            assert(claves(r@) =~= claves(r0).push((v@[i as int].cantidad_total as nat, v@[i as int].juego@)));
            assert(claves_resumen_juegos(v@).take(i + 1) =~= claves_resumen_juegos(v@).take(i as int).push(
                (v@[i as int].cantidad_total as nat, v@[i as int].juego@),
            ));
        }
        i = i + 1;
    }
    assert(claves_resumen_juegos(v@).take(i as int) =~= claves_resumen_juegos(v@));
    r
}

fn claves_de_resumen_idiomas(v: &Vec<InfoIdiomaSerializable>) -> (r: Vec<(usize, String)>)
    ensures
        claves(r@) == claves_resumen_idiomas(v@),
{
    let mut r: Vec<(usize, String)> = Vec::new();
    let mut i: usize = 0;
    while i < v.len()
        invariant
            i <= v.len(),
            claves(r@) == claves_resumen_idiomas(v@).take(i as int),
        decreases v.len() - i,
    {
        let ghost r0 = r@;
        r.push((v[i].cantidad_total, v[i].idioma.clone()));
        proof {
            assert(claves(r@) =~= claves(r0).push((v@[i as int].cantidad_total as nat, v@[i as int].idioma@)));
            assert(claves_resumen_idiomas(v@).take(i + 1) =~= claves_resumen_idiomas(v@).take(i as int).push(
                (v@[i as int].cantidad_total as nat, v@[i as int].idioma@),
            ));
        }
        i = i + 1;
    }
    assert(claves_resumen_idiomas(v@).take(i as int) =~= claves_resumen_idiomas(v@));
    r
}

fn convertir_juego(x: &InfoJuegoSerializable) -> (r: TopGame)
    ensures
        juego_convertido(r, *x),
{
    let cl = claves_de_conteos(&x.por_idioma);
    let sel = seleccionar_top(&cl, x.por_idioma.len());
    let mut languages: Vec<IdiomaPorJuego> = Vec::new();
    let mut a: usize = 0;
    while a < sel.len()
        invariant
            a <= sel.len(),
            es_top(claves_conteos(x.por_idioma@), sel@, x.por_idioma@.len()),
            languages.len() == a,
            forall|b: int|
                0 <= b < a ==> idioma_convertido(#[trigger] languages@[b], x.por_idioma@[sel@[b] as int]),
        decreases sel.len() - a,
    {
        assert(sel@[a as int] < x.por_idioma@.len());
        let c = &x.por_idioma[sel[a]];
        languages.push(
            IdiomaPorJuego {
                language: c.idioma.clone(),
                review_count: c.cantidad as u32,
                top_review: c.mejor.texto.clone(),
                top_review_votes: c.mejor.votos,
            },
        );
        a = a + 1;
    }
    let r = TopGame { game: x.juego.clone(), review_count: x.cantidad_total as u32, languages };
    assert(forall|b: int| 0 <= b < sel@.len() ==> idioma_convertido(#[trigger] r.languages@[b], x.por_idioma@[sel@[b] as int]));
    r
}

/// The report's entities: all of `juegos`, ordered by total, largest first,
/// then by name, smallest first.
pub fn convertir_top_games(juegos: &Vec<InfoJuegoSerializable>) -> (r: Vec<TopGame>)
    ensures
        juegos_convertidos(r@, juegos@),
{
    let cl = claves_de_resumen_juegos(juegos);
    let sel = seleccionar_top(&cl, juegos.len());
    let mut r: Vec<TopGame> = Vec::new();
    let mut a: usize = 0;
    while a < sel.len()
        invariant
            a <= sel.len(),
            es_top(claves_resumen_juegos(juegos@), sel@, juegos@.len()),
            r.len() == a,
            forall|b: int| 0 <= b < a ==> juego_convertido(#[trigger] r@[b], juegos@[sel@[b] as int]),
        decreases sel.len() - a,
    {
        assert(sel@[a as int] < juegos@.len());
        r.push(convertir_juego(&juegos[sel[a]]));
        a = a + 1;
    }
    r
}

fn convertir_idioma(x: &InfoIdiomaSerializable) -> (r: TopLanguage)
    ensures
        lenguaje_convertido(r, *x),
{
    let mut top_reviews: Vec<ReviewIdioma> = Vec::new();
    let mut a: usize = 0;
    while a < x.top_reviews.len()
        invariant
            a <= x.top_reviews.len(),
            top_reviews.len() == a,
            forall|b: int|
                0 <= b < a ==> (#[trigger] top_reviews@[b]).review@ == x.top_reviews@[b].texto@
                    && top_reviews@[b].votes == x.top_reviews@[b].votos,
        decreases x.top_reviews.len() - a,
    {
        let m = &x.top_reviews[a];
        top_reviews.push(ReviewIdioma { review: m.texto.clone(), votes: m.votos });
        a = a + 1;
    }
    TopLanguage { language: x.idioma.clone(), review_count: x.cantidad_total as u32, top_reviews }
}

/// The report's categories: all of `idiomas`, ordered by total, largest
/// first, then by name, smallest first.
pub fn convertir_top_languages(idiomas: &Vec<InfoIdiomaSerializable>) -> (r: Vec<TopLanguage>)
    ensures
        idiomas_convertidos(r@, idiomas@),
{
    let cl = claves_de_resumen_idiomas(idiomas);
    let sel = seleccionar_top(&cl, idiomas.len());
    let mut r: Vec<TopLanguage> = Vec::new();
    let mut a: usize = 0;
    while a < sel.len()
        invariant
            a <= sel.len(),
            es_top(claves_resumen_idiomas(idiomas@), sel@, idiomas@.len()),
            r.len() == a,
            forall|b: int| 0 <= b < a ==> lenguaje_convertido(#[trigger] r@[b], idiomas@[sel@[b] as int]),
        decreases sel.len() - a,
    {
        assert(sel@[a as int] < idiomas@.len());
        r.push(convertir_idioma(&idiomas[sel[a]]));
        a = a + 1;
    }
    r
}

/// `r` writes out the selections `s` under the identifier `padron`.
pub open spec fn salida_de(r: SalidaFinal, s: EstadisticasGlobalesSerializable, padron: u32) -> bool {
    &&& r.padron == padron
    &&& juegos_convertidos(r.top_games@, s.juegos@)
    &&& idiomas_convertidos(r.top_languages@, s.idiomas@)
}

impl EstadisticasGlobalesSerializable {
    /// The selections as the report writes them, under `padron`.
    pub fn a_salida_final(&self, padron: u32) -> (r: SalidaFinal)
        ensures
            salida_de(r, *self, padron),
    {
        let top_games = convertir_top_games(&self.juegos);
        let top_languages = convertir_top_languages(&self.idiomas);
        SalidaFinal { padron, top_games, top_languages }
    }
}

/// The report of the statistics `conteo`.
pub fn preparar_salida_final(conteo: &EstadisticasGlobales) -> (r: SalidaFinal)
    ensures
        exists|s: EstadisticasGlobalesSerializable|
            top_juegos_de(s.juegos@, *conteo) && top_idiomas_de(s.idiomas@, *conteo) && salida_de(
                r,
                s,
                PADRON,
            ),
{
    let s = filtrar_top3(conteo);
    s.a_salida_final(PADRON)
}

} // verus!
