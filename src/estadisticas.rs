//! The statistics accumulator: per-entity counts and best records, per-category
//! counts and bounded top lists, and the merge that folds one accumulator into
//! another.
use vstd::prelude::*;
use crate::modelo::{
    Par, Registro, MAX_TOP_RESENAS, de_idioma, de_juego, fusion, lema_fusion_len,
    lema_mejor_concat, lema_pares_concat, lema_suma_push, lema_suma_update, lema_top_concat, mejor,
    ordenar, pares, recortar, suma, top,
};

verus! {

broadcast use vstd::seq_lib::group_seq_properties;

/// A (text, weight) record as kept in best-record slots and top lists.
pub struct MejorReview {
    pub texto: String,
    pub votos: u32,
}

impl View for MejorReview {
    type V = Par;

    open spec fn view(&self) -> Par {
        (self.texto@, self.votos)
    }
}

impl MejorReview {
    pub fn copiar(&self) -> (r: MejorReview)
        ensures
            r@ == self@,
    {
        MejorReview { texto: self.texto.clone(), votos: self.votos }
    }
}

/// The pairs held by a list of records.
pub open spec fn lista(v: Seq<MejorReview>) -> Seq<Par> {
    v.map_values(|m: MejorReview| m@)
}

/// Count and best record of one category within one entity.
pub struct ConteoIdioma {
    pub idioma: String,
    pub cantidad: usize,
    pub mejor: MejorReview,
}

impl ConteoIdioma {
    /// The entry agrees with `s`, the records of its category.
    pub open spec fn corresponde_a(&self, s: Seq<Registro>) -> bool {
        &&& self.cantidad == s.len()
        &&& s.len() > 0
        &&& self.mejor@ == mejor(pares(s))
    }

    pub fn copiar(&self) -> (r: ConteoIdioma)
        ensures
            r.idioma@ == self.idioma@,
            r.cantidad == self.cantidad,
            r.mejor@ == self.mejor@,
    {
        ConteoIdioma { idioma: self.idioma.clone(), cantidad: self.cantidad, mejor: self.mejor.copiar() }
    }
}

pub open spec fn cantidades(v: Seq<ConteoIdioma>) -> Seq<int> {
    v.map_values(|c: ConteoIdioma| c.cantidad as int)
}

/// `v` holds, once per category, the statistics of the records `hs`.
pub open spec fn idiomas_ok(v: Seq<ConteoIdioma>, hs: Seq<Registro>) -> bool {
    &&& forall|i: int, j: int|
        0 <= i < j < v.len() ==> #[trigger] v[i].idioma@ != #[trigger] v[j].idioma@
    &&& forall|i: int| 0 <= i < v.len() ==> (#[trigger] v[i]).corresponde_a(de_idioma(hs, v[i].idioma@))
    &&& forall|c: Seq<char>|
        #[trigger] de_idioma(hs, c).len() > 0 ==> exists|i: int|
            0 <= i < v.len() && #[trigger] v[i].idioma@ == c
    &&& suma(cantidades(v)) == hs.len()
}

/// Some entry of `src` before position `i` is of category `c`.
pub open spec fn visto_conteo(src: Seq<ConteoIdioma>, i: int, c: Seq<char>) -> bool {
    exists|m: int| 0 <= m < i && #[trigger] src[m].idioma@ == c
}

/// The records of category `c` once the entries of `src` before `i` are folded in.
pub open spec fn vista_conteos(
    sa: Seq<Registro>,
    sb: Seq<Registro>,
    src: Seq<ConteoIdioma>,
    i: int,
    c: Seq<char>,
) -> Seq<Registro> {
    de_idioma(sa, c) + (if visto_conteo(src, i, c) {
        de_idioma(sb, c)
    } else {
        Seq::empty()
    })
}

/// Position of the entry of category `c`, if there is one.
fn buscar_conteo(v: &Vec<ConteoIdioma>, c: &String) -> (r: Option<usize>)
    ensures
        r matches Some(j) ==> j < v.len() && v@[j as int].idioma@ == c@,
        r is None ==> forall|k: int| 0 <= k < v.len() ==> v@[k].idioma@ != c@,
{
    let mut j: usize = 0;
    while j < v.len()
        invariant
            j <= v.len(),
            forall|k: int| 0 <= k < j ==> v@[k].idioma@ != c@,
        decreases v.len() - j,
    {
        if v[j].idioma == *c {
            return Some(j);
        }
        j = j + 1;
    }
    None
}

/// Folds the per-category entries `src` (records `sb`) into `dest` (records `sa`).
#[verifier::spinoff_prover]
fn fusionar_conteos(
    dest: &mut Vec<ConteoIdioma>,
    src: &Vec<ConteoIdioma>,
    Ghost(sa): Ghost<Seq<Registro>>,
    Ghost(sb): Ghost<Seq<Registro>>,
)
    requires
        idiomas_ok(old(dest)@, sa),
        idiomas_ok(src@, sb),
        sa.len() + sb.len() <= usize::MAX,
    ensures
        idiomas_ok(final(dest)@, sa + sb),
{
    let mut i: usize = 0;
    while i < src.len()
        invariant
            idiomas_ok(src@, sb),
            sa.len() + sb.len() <= usize::MAX,
            i <= src.len(),
            forall|a: int, b: int|
                0 <= a < b < dest.len() ==> #[trigger] dest@[a].idioma@ != #[trigger] dest@[b].idioma@,
            forall|k: int|
                0 <= k < dest.len() ==> (#[trigger] dest@[k]).corresponde_a(
                    vista_conteos(sa, sb, src@, (i) as int, dest@[k].idioma@),
                ),
            forall|c: Seq<char>|
                #[trigger] de_idioma(sa, c).len() > 0 ==> exists|k: int|
                    0 <= k < dest.len() && #[trigger] dest@[k].idioma@ == c,
            forall|m: int|
                0 <= m < i ==> exists|k: int|
                    0 <= k < dest.len() && #[trigger] dest@[k].idioma@ == #[trigger] src@[m].idioma@,
            suma(cantidades(dest@)) == sa.len() + suma(cantidades(src@).take(i as int)),
        decreases src.len() - i,
    {
        let e = &src[i];
        let ghost c = e.idioma@;
        let ghost ia = de_idioma(sa, c);
        let ghost ib = de_idioma(sb, c);
        assert(e.corresponde_a(ib));
        assert(forall|m: int| 0 <= m < i ==> src@[m].idioma@ != c);
        assert(cantidades(src@).take(i + 1) =~= cantidades(src@).take(i as int).push(e.cantidad as int));
        proof {
            lema_suma_push(cantidades(src@).take(i as int), e.cantidad as int);
        }
        assert((sa + sb).len() == sa.len() + sb.len());
        match buscar_conteo(dest, &e.idioma) {
            Some(j) => {
                let ghost dv = dest@;
                let ghost dj = dest@[j as int];
                assert(dj.corresponde_a(ia + Seq::empty()));
                assert(ia + Seq::empty() =~= ia);
                assert(de_idioma(sa + sb, c) == ia + ib);
                assert(de_idioma(sa + sb, c).len() <= (sa + sb).len());
                let nueva = dest[j].cantidad + e.cantidad;
                let reemplaza = e.mejor.votos > dest[j].mejor.votos;
                proof {
                    lema_pares_concat(ia, ib);
                    lema_mejor_concat(pares(ia), pares(ib));
                }
                let d = &mut dest[j];
                d.cantidad = nueva;
                if reemplaza {
                    d.mejor = e.mejor.copiar();
                }
                proof {
                    assert(cantidades(dest@) =~= cantidades(dv).update(j as int, nueva as int));
                    lema_suma_update(cantidades(dv), j as int, nueva as int);
                    assert(dest@[j as int].corresponde_a(ia + ib));
                    assert forall|k: int| 0 <= k < dest.len() && k != j implies dest@[k] == dv[k] by {}
                    assert(exists|m: int| 0 <= m < i + 1 && #[trigger] src@[m].idioma@ == c) by {
                        assert(src@[i as int].idioma@ == c);
                    }
                    assert forall|k: int| 0 <= k < dest.len() implies (#[trigger] dest@[k]).corresponde_a(
                        vista_conteos(sa, sb, src@, (i + 1) as int, dest@[k].idioma@),
                    ) by {
                        if k != j {
                            let ck = dest@[k].idioma@;
                            assert(ck != c);
                            if exists|m: int| 0 <= m < i + 1 && #[trigger] src@[m].idioma@ == ck {
                                let m = choose|m: int| 0 <= m < i + 1 && #[trigger] src@[m].idioma@ == ck;
                                assert(m != i);
                            }
                        }
                    }
                    assert forall|m: int| 0 <= m < i + 1 implies exists|k: int|
                        0 <= k < dest.len() && #[trigger] dest@[k].idioma@ == #[trigger] src@[m].idioma@ by {
                        if m == i {
                            assert(dest@[j as int].idioma@ == src@[m].idioma@);
                        } else {
                            let k = choose|k: int| 0 <= k < dv.len() && #[trigger] dv[k].idioma@ == src@[m].idioma@;
                            assert(dest@[k].idioma@ == src@[m].idioma@);
                        }
                    }
                    assert forall|cc: Seq<char>| #[trigger] de_idioma(sa, cc).len() > 0 implies exists|k: int|
                        0 <= k < dest.len() && #[trigger] dest@[k].idioma@ == cc by {
                        let k = choose|k: int| 0 <= k < dv.len() && #[trigger] dv[k].idioma@ == cc;
                        assert(dest@[k].idioma@ == cc);
                    }
                }
            },
            None => {
                let ghost dv = dest@;
                assert(ia.len() == 0);
                assert(ia + ib =~= ib);
                let nuevo = e.copiar();
                dest.push(nuevo);
                proof {
                    assert(cantidades(dest@) =~= cantidades(dv).push(e.cantidad as int));
                    lema_suma_push(cantidades(dv), e.cantidad as int);
                    let j = dv.len() as int;
                    assert(dest@[j].corresponde_a(ia + ib));
                    assert(exists|m: int| 0 <= m < i + 1 && #[trigger] src@[m].idioma@ == c) by {
                        assert(src@[i as int].idioma@ == c);
                    }
                    assert forall|k: int| 0 <= k < dest.len() implies (#[trigger] dest@[k]).corresponde_a(
                        vista_conteos(sa, sb, src@, (i + 1) as int, dest@[k].idioma@),
                    ) by {
                        if k != j {
                            let ck = dest@[k].idioma@;
                            assert(dest@[k] == dv[k]);
                            assert(ck != c);
                            if exists|m: int| 0 <= m < i + 1 && #[trigger] src@[m].idioma@ == ck {
                                let m = choose|m: int| 0 <= m < i + 1 && #[trigger] src@[m].idioma@ == ck;
                                assert(m != i);
                            }
                        }
                    }
                    assert forall|a: int, b: int|
                        0 <= a < b < dest.len() implies #[trigger] dest@[a].idioma@ != #[trigger] dest@[b].idioma@ by {
                        if b == j {
                            assert(dest@[a] == dv[a]);
                        } else {
                            assert(dest@[a] == dv[a]);
                            assert(dest@[b] == dv[b]);
                        }
                    }
                    assert forall|m: int| 0 <= m < i + 1 implies exists|k: int|
                        0 <= k < dest.len() && #[trigger] dest@[k].idioma@ == #[trigger] src@[m].idioma@ by {
                        if m == i {
                            assert(dest@[j].idioma@ == src@[m].idioma@);
                        } else {
                            let k = choose|k: int| 0 <= k < dv.len() && #[trigger] dv[k].idioma@ == src@[m].idioma@;
                            assert(dest@[k].idioma@ == src@[m].idioma@);
                        }
                    }
                    assert forall|cc: Seq<char>| #[trigger] de_idioma(sa, cc).len() > 0 implies exists|k: int|
                        0 <= k < dest.len() && #[trigger] dest@[k].idioma@ == cc by {
                        let k = choose|k: int| 0 <= k < dv.len() && #[trigger] dv[k].idioma@ == cc;
                        assert(dest@[k].idioma@ == cc);
                    }
                }
            },
        }
        i = i + 1;
    }
    proof {
        assert(cantidades(src@).take(i as int) =~= cantidades(src@));
        assert forall|k: int| 0 <= k < dest.len() implies (#[trigger] dest@[k]).corresponde_a(
            de_idioma(sa + sb, dest@[k].idioma@),
        ) by {
            let ck = dest@[k].idioma@;
            assert(de_idioma(sa + sb, ck) == de_idioma(sa, ck) + de_idioma(sb, ck));
            if !(exists|m: int| 0 <= m < i && #[trigger] src@[m].idioma@ == ck) {
                if de_idioma(sb, ck).len() > 0 {
                    let m = choose|m: int| 0 <= m < src.len() && #[trigger] src@[m].idioma@ == ck;
                }
                assert(de_idioma(sb, ck) =~= Seq::<Registro>::empty());
            }
        }
        assert forall|cc: Seq<char>| #[trigger] de_idioma(sa + sb, cc).len() > 0 implies exists|k: int|
            0 <= k < dest.len() && #[trigger] dest@[k].idioma@ == cc by {
            assert(de_idioma(sa + sb, cc) == de_idioma(sa, cc) + de_idioma(sb, cc));
            if de_idioma(sa, cc).len() == 0 {
                let m = choose|m: int| 0 <= m < src.len() && #[trigger] src@[m].idioma@ == cc;
                assert(src@[m].idioma@ == cc);
            }
        }
    }
}

/// Merges two top lists by descending weight, the left list first on equal
/// weights, and keeps the first ten.
pub fn fusionar_top(a: &Vec<MejorReview>, b: &Vec<MejorReview>) -> (r: Vec<MejorReview>)
    ensures
        lista(r@) == recortar(fusion(lista(a@), lista(b@)), MAX_TOP_RESENAS as nat),
{
    let ghost la = lista(a@);
    let ghost lb = lista(b@);
    let mut r: Vec<MejorReview> = Vec::new();
    let mut i: usize = 0;
    let mut j: usize = 0;
    while r.len() < MAX_TOP_RESENAS && (i < a.len() || j < b.len())
        invariant
            i <= a.len(),
            j <= b.len(),
            r.len() <= MAX_TOP_RESENAS,
            r.len() == i + j,
            la == lista(a@),
            lb == lista(b@),
            fusion(la, lb) == lista(r@) + fusion(la.skip(i as int), lb.skip(j as int)),
        decreases a.len() + b.len() - i - j,
    {
        let ghost xa = la.skip(i as int);
        let ghost xb = lb.skip(j as int);
        let ghost r0 = r@;
        let toma_a = if i < a.len() && j < b.len() {
            a[i].votos >= b[j].votos
        } else {
            i < a.len()
        };
        if toma_a {
            proof {
                assert(xa.drop_first() =~= la.skip(i + 1));
                assert(xa[0] == a@[i as int]@);
                if xb.len() == 0 {
                    assert(xa =~= seq![xa[0]] + xa.drop_first());
                }
                assert(fusion(xa, xb) == seq![xa[0]] + fusion(xa.drop_first(), xb));
            }
            r.push(a[i].copiar());
            i = i + 1;
            proof {
                assert(lista(r@) =~= lista(r0).push(xa[0]));
                assert(fusion(la, lb) =~= lista(r@) + fusion(la.skip(i as int), lb.skip(j as int)));
            }
        } else {
            proof {
                assert(xb.drop_first() =~= lb.skip(j + 1));
                assert(xb[0] == b@[j as int]@);
                if xa.len() == 0 {
                    assert(xb =~= seq![xb[0]] + xb.drop_first());
                }
                assert(fusion(xa, xb) == seq![xb[0]] + fusion(xa, xb.drop_first()));
            }
            r.push(b[j].copiar());
            j = j + 1;
            proof {
                assert(lista(r@) =~= lista(r0).push(xb[0]));
                assert(fusion(la, lb) =~= lista(r@) + fusion(la.skip(i as int), lb.skip(j as int)));
            }
        }
    }
    proof {
        let resto = fusion(la.skip(i as int), lb.skip(j as int));
        lema_fusion_len(la, lb);
        lema_fusion_len(la.skip(i as int), lb.skip(j as int));
        if r.len() < MAX_TOP_RESENAS {
            assert(la.skip(i as int) =~= Seq::<Par>::empty());
            assert(lb.skip(j as int) =~= Seq::<Par>::empty());
            assert(lista(r@) + resto =~= lista(r@));
        } else {
            assert((lista(r@) + resto).take(MAX_TOP_RESENAS as int) =~= lista(r@));
        }
    }
    r
}

/// Count and top list of one category, over all entities.
pub struct InfoIdioma {
    pub idioma: String,
    pub cantidad_total: usize,
    pub top_reviews: Vec<MejorReview>,
}

fn copiar_lista(v: &Vec<MejorReview>) -> (r: Vec<MejorReview>)
    ensures
        lista(r@) == lista(v@),
{
    let mut r: Vec<MejorReview> = Vec::new();
    let mut i: usize = 0;
    while i < v.len()
        invariant
            i <= v.len(),
            lista(r@) == lista(v@).take(i as int),
        decreases v.len() - i,
    {
        let ghost r0 = r@;
        let x = v[i].copiar();
        r.push(x);
        proof {
            assert(lista(r@) =~= lista(r0).push(v@[i as int]@));
            assert(lista(v@).take(i + 1) =~= lista(v@).take(i as int).push(v@[i as int]@));
        }
        i = i + 1;
    }
    assert(lista(v@).take(i as int) =~= lista(v@));
    r
}

impl InfoIdioma {
    /// The entry agrees with `s`, the records of its category.
    pub open spec fn corresponde_a(&self, s: Seq<Registro>) -> bool {
        &&& self.cantidad_total == s.len()
        &&& s.len() > 0
        &&& lista(self.top_reviews@) == top(pares(s))
    }

    pub fn copiar(&self) -> (r: InfoIdioma)
        ensures
            r.idioma@ == self.idioma@,
            r.cantidad_total == self.cantidad_total,
            lista(r.top_reviews@) == lista(self.top_reviews@),
    {
        InfoIdioma {
            idioma: self.idioma.clone(),
            cantidad_total: self.cantidad_total,
            top_reviews: copiar_lista(&self.top_reviews),
        }
    }
}

pub open spec fn totales_idiomas(v: Seq<InfoIdioma>) -> Seq<int> {
    v.map_values(|c: InfoIdioma| c.cantidad_total as int)
}

/// `v` holds, once per category, the statistics of the records `h`.
pub open spec fn idiomas_globales_ok(v: Seq<InfoIdioma>, h: Seq<Registro>) -> bool {
    &&& forall|i: int, j: int|
        0 <= i < j < v.len() ==> #[trigger] v[i].idioma@ != #[trigger] v[j].idioma@
    &&& forall|i: int| 0 <= i < v.len() ==> (#[trigger] v[i]).corresponde_a(de_idioma(h, v[i].idioma@))
    &&& forall|c: Seq<char>|
        #[trigger] de_idioma(h, c).len() > 0 ==> exists|i: int|
            0 <= i < v.len() && #[trigger] v[i].idioma@ == c
    &&& suma(totales_idiomas(v)) == h.len()
}

/// Counts of one entity: in all, and per category with the best record.
pub struct InfoJuego {
    pub juego: String,
    pub cantidad_total: usize,
    pub por_idioma: Vec<ConteoIdioma>,
}

fn copiar_conteos(v: &Vec<ConteoIdioma>) -> (r: Vec<ConteoIdioma>)
    ensures
        forall|hs: Seq<Registro>| idiomas_ok(v@, hs) ==> idiomas_ok(r@, hs),
{
    let mut r: Vec<ConteoIdioma> = Vec::new();
    let mut i: usize = 0;
    while i < v.len()
        invariant
            i <= v.len(),
            r.len() == i,
            forall|k: int|
                0 <= k < i ==> #[trigger] r@[k].idioma@ == v@[k].idioma@ && r@[k].cantidad
                    == v@[k].cantidad && r@[k].mejor@ == v@[k].mejor@,
        decreases v.len() - i,
    {
        r.push(v[i].copiar());
        i = i + 1;
    }
    assert forall|k: int| 0 <= k < r.len() implies cantidades(r@)[k] == cantidades(v@)[k] by {
        assert(r@[k].idioma@ == v@[k].idioma@);
    }
    assert(cantidades(r@) =~= cantidades(v@));
    assert forall|hs: Seq<Registro>| idiomas_ok(v@, hs) implies idiomas_ok(r@, hs) by {
        assert forall|c: Seq<char>| #[trigger] de_idioma(hs, c).len() > 0 implies exists|k: int|
            0 <= k < r.len() && #[trigger] r@[k].idioma@ == c by {
            let k = choose|k: int| 0 <= k < v.len() && #[trigger] v@[k].idioma@ == c;
            assert(r@[k].idioma@ == c);
        }
        assert forall|k: int| 0 <= k < r.len() implies (#[trigger] r@[k]).corresponde_a(
            de_idioma(hs, r@[k].idioma@),
        ) by {
            assert(v@[k].corresponde_a(de_idioma(hs, v@[k].idioma@)));
        }
    }
    r
}

impl InfoJuego {
    /// The entry agrees with `s`, the records of its entity.
    pub open spec fn corresponde_a(&self, s: Seq<Registro>) -> bool {
        &&& self.cantidad_total == s.len()
        &&& s.len() > 0
        &&& idiomas_ok(self.por_idioma@, s)
    }

    pub fn copiar(&self) -> (r: InfoJuego)
        ensures
            r.juego@ == self.juego@,
            r.cantidad_total == self.cantidad_total,
            forall|s: Seq<Registro>| self.corresponde_a(s) ==> r.corresponde_a(s),
    {
        InfoJuego {
            juego: self.juego.clone(),
            cantidad_total: self.cantidad_total,
            por_idioma: copiar_conteos(&self.por_idioma),
        }
    }
}

pub open spec fn totales_juegos(v: Seq<InfoJuego>) -> Seq<int> {
    v.map_values(|c: InfoJuego| c.cantidad_total as int)
}

/// `v` holds, once per entity, the statistics of the records `h`.
pub open spec fn juegos_ok(v: Seq<InfoJuego>, h: Seq<Registro>) -> bool {
    &&& forall|i: int, j: int|
        0 <= i < j < v.len() ==> #[trigger] v[i].juego@ != #[trigger] v[j].juego@
    &&& forall|i: int| 0 <= i < v.len() ==> (#[trigger] v[i]).corresponde_a(de_juego(h, v[i].juego@))
    &&& forall|c: Seq<char>|
        #[trigger] de_juego(h, c).len() > 0 ==> exists|i: int|
            0 <= i < v.len() && #[trigger] v[i].juego@ == c
    &&& suma(totales_juegos(v)) == h.len()
}

/// Some entry of `src` before position `i` has key `c`.
pub open spec fn visto_idioma(src: Seq<InfoIdioma>, i: int, c: Seq<char>) -> bool {
    exists|m: int| 0 <= m < i && #[trigger] src[m].idioma@ == c
}

/// The records of key `c` once the entries of `src` before `i` are folded in.
pub open spec fn vista_idiomas(
    sa: Seq<Registro>,
    sb: Seq<Registro>,
    src: Seq<InfoIdioma>,
    i: int,
    c: Seq<char>,
) -> Seq<Registro> {
    de_idioma(sa, c) + (if visto_idioma(src, i, c) {
        de_idioma(sb, c)
    } else {
        Seq::empty()
    })
}

/// Position of the entry of category `c`, if there is one.
fn buscar_idioma(v: &Vec<InfoIdioma>, c: &String) -> (r: Option<usize>)
    ensures
        r matches Some(j) ==> j < v.len() && v@[j as int].idioma@ == c@,
        r is None ==> forall|k: int| 0 <= k < v.len() ==> v@[k].idioma@ != c@,
{
    let mut j: usize = 0;
    while j < v.len()
        invariant
            j <= v.len(),
            forall|k: int| 0 <= k < j ==> v@[k].idioma@ != c@,
        decreases v.len() - j,
    {
        if v[j].idioma == *c {
            return Some(j);
        }
        j = j + 1;
    }
    None
}

/// Folds the per-category statistics `src` (records `sb`) into `dest` (records `sa`).
#[verifier::spinoff_prover]
fn fusionar_idiomas(
    dest: &mut Vec<InfoIdioma>,
    src: &Vec<InfoIdioma>,
    Ghost(sa): Ghost<Seq<Registro>>,
    Ghost(sb): Ghost<Seq<Registro>>,
)
    requires
        idiomas_globales_ok(old(dest)@, sa),
        idiomas_globales_ok(src@, sb),
        sa.len() + sb.len() <= usize::MAX,
    ensures
        idiomas_globales_ok(final(dest)@, sa + sb),
{
    let mut i: usize = 0;
    while i < src.len()
        invariant
            idiomas_globales_ok(src@, sb),
            sa.len() + sb.len() <= usize::MAX,
            i <= src.len(),
            forall|a: int, b: int|
                0 <= a < b < dest.len() ==> #[trigger] dest@[a].idioma@ != #[trigger] dest@[b].idioma@,
            forall|k: int|
                0 <= k < dest.len() ==> (#[trigger] dest@[k]).corresponde_a(
                    vista_idiomas(sa, sb, src@, (i) as int, dest@[k].idioma@),
                ),
            forall|c: Seq<char>|
                #[trigger] de_idioma(sa, c).len() > 0 ==> exists|k: int|
                    0 <= k < dest.len() && #[trigger] dest@[k].idioma@ == c,
            forall|m: int|
                0 <= m < i ==> exists|k: int|
                    0 <= k < dest.len() && #[trigger] dest@[k].idioma@ == #[trigger] src@[m].idioma@,
            suma(totales_idiomas(dest@)) == sa.len() + suma(totales_idiomas(src@).take(i as int)),
        decreases src.len() - i,
    {
        let e = &src[i];
        let ghost c = e.idioma@;
        let ghost ia = de_idioma(sa, c);
        let ghost ib = de_idioma(sb, c);
        assert(e.corresponde_a(ib));
        assert(forall|m: int| 0 <= m < i ==> src@[m].idioma@ != c);
        assert(totales_idiomas(src@).take(i + 1) =~= totales_idiomas(src@).take(i as int).push(e.cantidad_total as int));
        proof {
            lema_suma_push(totales_idiomas(src@).take(i as int), e.cantidad_total as int);
        }
        assert((sa + sb).len() == sa.len() + sb.len());
        match buscar_idioma(dest, &e.idioma) {
            Some(j) => {
                let ghost dv = dest@;
                let ghost dj = dest@[j as int];
                assert(dj.corresponde_a(ia + Seq::empty()));
                assert(ia + Seq::empty() =~= ia);
                assert(de_idioma(sa + sb, c) == ia + ib);
                assert(de_idioma(sa + sb, c).len() <= (sa + sb).len());
                let nueva = dest[j].cantidad_total + e.cantidad_total;
                let lista_top = fusionar_top(&dest[j].top_reviews, &e.top_reviews);
                proof {
                    lema_pares_concat(ia, ib);
                    lema_top_concat(pares(ia), pares(ib));
                }
                let d = &mut dest[j];
                d.cantidad_total = nueva;
                d.top_reviews = lista_top;
                proof {
                    assert(totales_idiomas(dest@) =~= totales_idiomas(dv).update(j as int, nueva as int));
                    lema_suma_update(totales_idiomas(dv), j as int, nueva as int);
                    assert(dest@[j as int].corresponde_a(ia + ib));
                    assert forall|k: int| 0 <= k < dest.len() && k != j implies dest@[k] == dv[k] by {}
                    assert(exists|m: int| 0 <= m < i + 1 && #[trigger] src@[m].idioma@ == c) by {
                        assert(src@[i as int].idioma@ == c);
                    }
                    assert forall|k: int| 0 <= k < dest.len() implies (#[trigger] dest@[k]).corresponde_a(
                        vista_idiomas(sa, sb, src@, (i + 1) as int, dest@[k].idioma@),
                    ) by {
                        if k != j {
                            let ck = dest@[k].idioma@;
                            assert(ck != c);
                            if exists|m: int| 0 <= m < i + 1 && #[trigger] src@[m].idioma@ == ck {
                                let m = choose|m: int| 0 <= m < i + 1 && #[trigger] src@[m].idioma@ == ck;
                                assert(m != i);
                            }
                        }
                    }
                    assert forall|m: int| 0 <= m < i + 1 implies exists|k: int|
                        0 <= k < dest.len() && #[trigger] dest@[k].idioma@ == #[trigger] src@[m].idioma@ by {
                        if m == i {
                            assert(dest@[j as int].idioma@ == src@[m].idioma@);
                        } else {
                            let k = choose|k: int| 0 <= k < dv.len() && #[trigger] dv[k].idioma@ == src@[m].idioma@;
                            assert(dest@[k].idioma@ == src@[m].idioma@);
                        }
                    }
                    assert forall|cc: Seq<char>| #[trigger] de_idioma(sa, cc).len() > 0 implies exists|k: int|
                        0 <= k < dest.len() && #[trigger] dest@[k].idioma@ == cc by {
                        let k = choose|k: int| 0 <= k < dv.len() && #[trigger] dv[k].idioma@ == cc;
                        assert(dest@[k].idioma@ == cc);
                    }
                }
            },
            None => {
                let ghost dv = dest@;
                assert(ia.len() == 0);
                assert(ia + ib =~= ib);
                let nuevo = e.copiar();
                dest.push(nuevo);
                proof {
                    assert(totales_idiomas(dest@) =~= totales_idiomas(dv).push(e.cantidad_total as int));
                    lema_suma_push(totales_idiomas(dv), e.cantidad_total as int);
                    let j = dv.len() as int;
                    assert(dest@[j].corresponde_a(ia + ib));
                    assert(exists|m: int| 0 <= m < i + 1 && #[trigger] src@[m].idioma@ == c) by {
                        assert(src@[i as int].idioma@ == c);
                    }
                    assert forall|k: int| 0 <= k < dest.len() implies (#[trigger] dest@[k]).corresponde_a(
                        vista_idiomas(sa, sb, src@, (i + 1) as int, dest@[k].idioma@),
                    ) by {
                        if k != j {
                            let ck = dest@[k].idioma@;
                            assert(dest@[k] == dv[k]);
                            assert(ck != c);
                            if exists|m: int| 0 <= m < i + 1 && #[trigger] src@[m].idioma@ == ck {
                                let m = choose|m: int| 0 <= m < i + 1 && #[trigger] src@[m].idioma@ == ck;
                                assert(m != i);
                            }
                        }
                    }
                    assert forall|a: int, b: int|
                        0 <= a < b < dest.len() implies #[trigger] dest@[a].idioma@ != #[trigger] dest@[b].idioma@ by {
                        if b == j {
                            assert(dest@[a] == dv[a]);
                        } else {
                            assert(dest@[a] == dv[a]);
                            assert(dest@[b] == dv[b]);
                        }
                    }
                    assert forall|m: int| 0 <= m < i + 1 implies exists|k: int|
                        0 <= k < dest.len() && #[trigger] dest@[k].idioma@ == #[trigger] src@[m].idioma@ by {
                        if m == i {
                            assert(dest@[j].idioma@ == src@[m].idioma@);
                        } else {
                            let k = choose|k: int| 0 <= k < dv.len() && #[trigger] dv[k].idioma@ == src@[m].idioma@;
                            assert(dest@[k].idioma@ == src@[m].idioma@);
                        }
                    }
                    assert forall|cc: Seq<char>| #[trigger] de_idioma(sa, cc).len() > 0 implies exists|k: int|
                        0 <= k < dest.len() && #[trigger] dest@[k].idioma@ == cc by {
                        let k = choose|k: int| 0 <= k < dv.len() && #[trigger] dv[k].idioma@ == cc;
                        assert(dest@[k].idioma@ == cc);
                    }
                }
            },
        }
        i = i + 1;
    }
    proof {
        assert(totales_idiomas(src@).take(i as int) =~= totales_idiomas(src@));
        assert forall|k: int| 0 <= k < dest.len() implies (#[trigger] dest@[k]).corresponde_a(
            de_idioma(sa + sb, dest@[k].idioma@),
        ) by {
            let ck = dest@[k].idioma@;
            assert(de_idioma(sa + sb, ck) == de_idioma(sa, ck) + de_idioma(sb, ck));
            if !(exists|m: int| 0 <= m < i && #[trigger] src@[m].idioma@ == ck) {
                if de_idioma(sb, ck).len() > 0 {
                    let m = choose|m: int| 0 <= m < src.len() && #[trigger] src@[m].idioma@ == ck;
                }
                assert(de_idioma(sb, ck) =~= Seq::<Registro>::empty());
            }
        }
        assert forall|cc: Seq<char>| #[trigger] de_idioma(sa + sb, cc).len() > 0 implies exists|k: int|
            0 <= k < dest.len() && #[trigger] dest@[k].idioma@ == cc by {
            assert(de_idioma(sa + sb, cc) == de_idioma(sa, cc) + de_idioma(sb, cc));
            if de_idioma(sa, cc).len() == 0 {
                let m = choose|m: int| 0 <= m < src.len() && #[trigger] src@[m].idioma@ == cc;
                assert(src@[m].idioma@ == cc);
            }
        }
    }
}

/// Some entry of `src` before position `i` has key `c`.
pub open spec fn visto_juego(src: Seq<InfoJuego>, i: int, c: Seq<char>) -> bool {
    exists|m: int| 0 <= m < i && #[trigger] src[m].juego@ == c
}

/// The records of key `c` once the entries of `src` before `i` are folded in.
pub open spec fn vista_juegos(
    sa: Seq<Registro>,
    sb: Seq<Registro>,
    src: Seq<InfoJuego>,
    i: int,
    c: Seq<char>,
) -> Seq<Registro> {
    de_juego(sa, c) + (if visto_juego(src, i, c) {
        de_juego(sb, c)
    } else {
        Seq::empty()
    })
}

/// Position of the entry of category `c`, if there is one.
fn buscar_juego(v: &Vec<InfoJuego>, c: &String) -> (r: Option<usize>)
    ensures
        r matches Some(j) ==> j < v.len() && v@[j as int].juego@ == c@,
        r is None ==> forall|k: int| 0 <= k < v.len() ==> v@[k].juego@ != c@,
{
    let mut j: usize = 0;
    while j < v.len()
        invariant
            j <= v.len(),
            forall|k: int| 0 <= k < j ==> v@[k].juego@ != c@,
        decreases v.len() - j,
    {
        if v[j].juego == *c {
            return Some(j);
        }
        j = j + 1;
    }
    None
}

/// Folds the per-entity statistics `src` (records `sb`) into `dest` (records `sa`).
#[verifier::spinoff_prover]
fn fusionar_juegos(
    dest: &mut Vec<InfoJuego>,
    src: &Vec<InfoJuego>,
    Ghost(sa): Ghost<Seq<Registro>>,
    Ghost(sb): Ghost<Seq<Registro>>,
)
    requires
        juegos_ok(old(dest)@, sa),
        juegos_ok(src@, sb),
        sa.len() + sb.len() <= usize::MAX,
    ensures
        juegos_ok(final(dest)@, sa + sb),
{
    let mut i: usize = 0;
    while i < src.len()
        invariant
            juegos_ok(src@, sb),
            sa.len() + sb.len() <= usize::MAX,
            i <= src.len(),
            forall|a: int, b: int|
                0 <= a < b < dest.len() ==> #[trigger] dest@[a].juego@ != #[trigger] dest@[b].juego@,
            forall|k: int|
                0 <= k < dest.len() ==> (#[trigger] dest@[k]).corresponde_a(
                    vista_juegos(sa, sb, src@, (i) as int, dest@[k].juego@),
                ),
            forall|c: Seq<char>|
                #[trigger] de_juego(sa, c).len() > 0 ==> exists|k: int|
                    0 <= k < dest.len() && #[trigger] dest@[k].juego@ == c,
            forall|m: int|
                0 <= m < i ==> exists|k: int|
                    0 <= k < dest.len() && #[trigger] dest@[k].juego@ == #[trigger] src@[m].juego@,
            suma(totales_juegos(dest@)) == sa.len() + suma(totales_juegos(src@).take(i as int)),
        decreases src.len() - i,
    {
        let e = &src[i];
        let ghost c = e.juego@;
        let ghost ia = de_juego(sa, c);
        let ghost ib = de_juego(sb, c);
        assert(e.corresponde_a(ib));
        assert(forall|m: int| 0 <= m < i ==> src@[m].juego@ != c);
        assert(totales_juegos(src@).take(i + 1) =~= totales_juegos(src@).take(i as int).push(e.cantidad_total as int));
        proof {
            lema_suma_push(totales_juegos(src@).take(i as int), e.cantidad_total as int);
        }
        assert((sa + sb).len() == sa.len() + sb.len());
        match buscar_juego(dest, &e.juego) {
            Some(j) => {
                let ghost dv = dest@;
                let ghost dj = dest@[j as int];
                assert(dj.corresponde_a(ia + Seq::empty()));
                assert(ia + Seq::empty() =~= ia);
                assert(de_juego(sa + sb, c) == ia + ib);
                assert(de_juego(sa + sb, c).len() <= (sa + sb).len());
                let nueva = dest[j].cantidad_total + e.cantidad_total;
                let d = &mut dest[j];
                d.cantidad_total = nueva;
                fusionar_conteos(&mut d.por_idioma, &e.por_idioma, Ghost(ia), Ghost(ib));
                proof {
                    assert(totales_juegos(dest@) =~= totales_juegos(dv).update(j as int, nueva as int));
                    lema_suma_update(totales_juegos(dv), j as int, nueva as int);
                    assert(dest@[j as int].corresponde_a(ia + ib));
                    assert forall|k: int| 0 <= k < dest.len() && k != j implies dest@[k] == dv[k] by {}
                    assert(exists|m: int| 0 <= m < i + 1 && #[trigger] src@[m].juego@ == c) by {
                        assert(src@[i as int].juego@ == c);
                    }
                    assert forall|k: int| 0 <= k < dest.len() implies (#[trigger] dest@[k]).corresponde_a(
                        vista_juegos(sa, sb, src@, (i + 1) as int, dest@[k].juego@),
                    ) by {
                        if k != j {
                            let ck = dest@[k].juego@;
                            assert(ck != c);
                            if exists|m: int| 0 <= m < i + 1 && #[trigger] src@[m].juego@ == ck {
                                let m = choose|m: int| 0 <= m < i + 1 && #[trigger] src@[m].juego@ == ck;
                                assert(m != i);
                            }
                        }
                    }
                    assert forall|m: int| 0 <= m < i + 1 implies exists|k: int|
                        0 <= k < dest.len() && #[trigger] dest@[k].juego@ == #[trigger] src@[m].juego@ by {
                        if m == i {
                            assert(dest@[j as int].juego@ == src@[m].juego@);
                        } else {
                            let k = choose|k: int| 0 <= k < dv.len() && #[trigger] dv[k].juego@ == src@[m].juego@;
                            assert(dest@[k].juego@ == src@[m].juego@);
                        }
                    }
                    assert forall|cc: Seq<char>| #[trigger] de_juego(sa, cc).len() > 0 implies exists|k: int|
                        0 <= k < dest.len() && #[trigger] dest@[k].juego@ == cc by {
                        let k = choose|k: int| 0 <= k < dv.len() && #[trigger] dv[k].juego@ == cc;
                        assert(dest@[k].juego@ == cc);
                    }
                }
            },
            None => {
                let ghost dv = dest@;
                assert(ia.len() == 0);
                assert(ia + ib =~= ib);
                let nuevo = e.copiar();
                dest.push(nuevo);
                proof {
                    assert(totales_juegos(dest@) =~= totales_juegos(dv).push(e.cantidad_total as int));
                    lema_suma_push(totales_juegos(dv), e.cantidad_total as int);
                    let j = dv.len() as int;
                    assert(dest@[j].corresponde_a(ia + ib));
                    assert(exists|m: int| 0 <= m < i + 1 && #[trigger] src@[m].juego@ == c) by {
                        assert(src@[i as int].juego@ == c);
                    }
                    assert forall|k: int| 0 <= k < dest.len() implies (#[trigger] dest@[k]).corresponde_a(
                        vista_juegos(sa, sb, src@, (i + 1) as int, dest@[k].juego@),
                    ) by {
                        if k != j {
                            let ck = dest@[k].juego@;
                            assert(dest@[k] == dv[k]);
                            assert(ck != c);
                            if exists|m: int| 0 <= m < i + 1 && #[trigger] src@[m].juego@ == ck {
                                let m = choose|m: int| 0 <= m < i + 1 && #[trigger] src@[m].juego@ == ck;
                                assert(m != i);
                            }
                        }
                    }
                    assert forall|a: int, b: int|
                        0 <= a < b < dest.len() implies #[trigger] dest@[a].juego@ != #[trigger] dest@[b].juego@ by {
                        if b == j {
                            assert(dest@[a] == dv[a]);
                        } else {
                            assert(dest@[a] == dv[a]);
                            assert(dest@[b] == dv[b]);
                        }
                    }
                    assert forall|m: int| 0 <= m < i + 1 implies exists|k: int|
                        0 <= k < dest.len() && #[trigger] dest@[k].juego@ == #[trigger] src@[m].juego@ by {
                        if m == i {
                            assert(dest@[j].juego@ == src@[m].juego@);
                        } else {
                            let k = choose|k: int| 0 <= k < dv.len() && #[trigger] dv[k].juego@ == src@[m].juego@;
                            assert(dest@[k].juego@ == src@[m].juego@);
                        }
                    }
                    assert forall|cc: Seq<char>| #[trigger] de_juego(sa, cc).len() > 0 implies exists|k: int|
                        0 <= k < dest.len() && #[trigger] dest@[k].juego@ == cc by {
                        let k = choose|k: int| 0 <= k < dv.len() && #[trigger] dv[k].juego@ == cc;
                        assert(dest@[k].juego@ == cc);
                    }
                }
            },
        }
        i = i + 1;
    }
    proof {
        assert(totales_juegos(src@).take(i as int) =~= totales_juegos(src@));
        assert forall|k: int| 0 <= k < dest.len() implies (#[trigger] dest@[k]).corresponde_a(
            de_juego(sa + sb, dest@[k].juego@),
        ) by {
            let ck = dest@[k].juego@;
            assert(de_juego(sa + sb, ck) == de_juego(sa, ck) + de_juego(sb, ck));
            if !(exists|m: int| 0 <= m < i && #[trigger] src@[m].juego@ == ck) {
                if de_juego(sb, ck).len() > 0 {
                    let m = choose|m: int| 0 <= m < src.len() && #[trigger] src@[m].juego@ == ck;
                }
                assert(de_juego(sb, ck) =~= Seq::<Registro>::empty());
            }
        }
        assert forall|cc: Seq<char>| #[trigger] de_juego(sa + sb, cc).len() > 0 implies exists|k: int|
            0 <= k < dest.len() && #[trigger] dest@[k].juego@ == cc by {
            assert(de_juego(sa + sb, cc) == de_juego(sa, cc) + de_juego(sb, cc));
            if de_juego(sa, cc).len() == 0 {
                let m = choose|m: int| 0 <= m < src.len() && #[trigger] src@[m].juego@ == cc;
                assert(src@[m].juego@ == cc);
            }
        }
    }
}

/// Statistics of a sequence of records: per entity and per category.
///
/// `registros` is the sequence of records that the statistics describe, in the
/// order in which they were folded in; every count, best record and top list is
/// determined by it (see `wf`).
pub struct EstadisticasGlobales {
    pub juegos: Vec<InfoJuego>,
    pub por_idioma: Vec<InfoIdioma>,
    pub registros: Ghost<Seq<Registro>>,
}

/// The statistics of a single batch, before they are merged.
pub type EstadisticasParciales = EstadisticasGlobales;

proof fn lema_filtro_unitario(r: Registro, p: spec_fn(Registro) -> bool)
    ensures
        seq![r].filter(p) == (if p(r) {
            seq![r]
        } else {
            Seq::<Registro>::empty()
        }),
{
    reveal(Seq::filter);
    assert(seq![r].drop_last() =~= Seq::<Registro>::empty());
    assert(Seq::<Registro>::empty().filter(p) =~= Seq::<Registro>::empty());
    assert(Seq::<Registro>::empty().push(r) =~= seq![r]);
}

impl EstadisticasGlobales {
    /// Every entity and every category of `registros` has exactly one entry,
    /// holding its counts, best records and top list.
    pub open spec fn wf(&self) -> bool {
        &&& juegos_ok(self.juegos@, self.registros@)
        &&& idiomas_globales_ok(self.por_idioma@, self.registros@)
        &&& self.registros@.len() <= usize::MAX
    }

    /// Statistics of no record at all.
    pub fn new() -> (r: EstadisticasGlobales)
        ensures
            r.wf(),
            r.registros@ == Seq::<Registro>::empty(),
    {
        let r = EstadisticasGlobales {
            juegos: Vec::new(),
            por_idioma: Vec::new(),
            registros: Ghost(Seq::empty()),
        };
        proof {
            assert(totales_juegos(r.juegos@) =~= Seq::<int>::empty());
            assert(totales_idiomas(r.por_idioma@) =~= Seq::<int>::empty());
        }
        r
    }

    /// Statistics of the single record (`juego`, `idioma`, `texto`, `votos`).
    pub fn de_registro(juego: &String, idioma: &String, texto: &String, votos: u32) -> (r:
        EstadisticasGlobales)
        ensures
            r.wf(),
            r.registros@ == seq![
                Registro { juego: juego@, idioma: idioma@, texto: texto@, votos: votos },
            ],
    {
        let ghost reg = Registro { juego: juego@, idioma: idioma@, texto: texto@, votos: votos };
        let conteo = ConteoIdioma {
            idioma: idioma.clone(),
            cantidad: 1,
            mejor: MejorReview { texto: texto.clone(), votos },
        };
        let mut por_idioma_juego: Vec<ConteoIdioma> = Vec::new();
        por_idioma_juego.push(conteo);
        let info_juego = InfoJuego { juego: juego.clone(), cantidad_total: 1, por_idioma: por_idioma_juego };
        let mut top_reviews: Vec<MejorReview> = Vec::new();
        top_reviews.push(MejorReview { texto: texto.clone(), votos });
        let info_idioma = InfoIdioma { idioma: idioma.clone(), cantidad_total: 1, top_reviews };
        let mut juegos: Vec<InfoJuego> = Vec::new();
        juegos.push(info_juego);
        let mut por_idioma: Vec<InfoIdioma> = Vec::new();
        por_idioma.push(info_idioma);
        let ghost hr = seq![reg];
        let r = EstadisticasGlobales { juegos, por_idioma, registros: Ghost(hr) };
        proof {
            let h = seq![reg];
            lema_filtro_unitario(reg, |x: Registro| x.juego == juego@);
            lema_filtro_unitario(reg, |x: Registro| x.idioma == idioma@);
            assert(de_juego(h, juego@) == h);
            assert(de_idioma(h, idioma@) == h);
            assert forall|c: Seq<char>| c != juego@ implies de_juego(h, c).len() == 0 by {
                lema_filtro_unitario(reg, |x: Registro| x.juego == c);
            }
            assert forall|c: Seq<char>| c != idioma@ implies de_idioma(h, c).len() == 0 by {
                lema_filtro_unitario(reg, |x: Registro| x.idioma == c);
            }
            let p = seq![(texto@, votos)];
            assert(pares(h) =~= p);
            assert(p.drop_last() =~= Seq::<Par>::empty());
            assert(ordenar(p.drop_last()) == Seq::<Par>::empty());
            assert(seq![p.last()] =~= p);
            assert(ordenar(p) == fusion(Seq::<Par>::empty(), p));
            assert(lista(r.por_idioma@[0].top_reviews@) =~= p);
            assert(top(p) == p);
            assert(r.juegos@[0].por_idioma@[0].corresponde_a(de_idioma(h, idioma@)));
            assert(cantidades(r.juegos@[0].por_idioma@) =~= seq![1int]);
            assert(seq![1int].drop_last() =~= Seq::<int>::empty());
            assert(suma(Seq::<int>::empty()) == 0);
            assert(suma(seq![1int]) == suma(seq![1int].drop_last()) + 1);
            assert(totales_juegos(r.juegos@) =~= seq![1int]);
            assert(totales_idiomas(r.por_idioma@) =~= seq![1int]);
            let vi = r.juegos@[0].por_idioma@;
            assert forall|c: Seq<char>| #[trigger] de_idioma(h, c).len() > 0 implies exists|i: int|
                0 <= i < vi.len() && #[trigger] vi[i].idioma@ == c by {
                assert(vi[0].idioma@ == c);
            }
            assert(idiomas_ok(vi, de_juego(h, juego@)));
            assert forall|c: Seq<char>| #[trigger] de_idioma(h, c).len() > 0 implies exists|i: int|
                0 <= i < r.por_idioma@.len() && #[trigger] r.por_idioma@[i].idioma@ == c by {
                assert(r.por_idioma@[0].idioma@ == c);
            }
            assert forall|c: Seq<char>| #[trigger] de_juego(h, c).len() > 0 implies exists|i: int|
                0 <= i < r.juegos@.len() && #[trigger] r.juegos@[i].juego@ == c by {
                assert(r.juegos@[0].juego@ == c);
            }
            assert(r.juegos@[0].corresponde_a(de_juego(h, juego@)));
            assert(r.por_idioma@[0].corresponde_a(de_idioma(h, idioma@)));
        }
        r
    }

    /// Folds these statistics into `destino`: counts add up, a best record is
    /// replaced only by a strictly heavier one, and top lists are merged and
    /// capped. The result describes the records of `destino` followed by these.
    pub fn merge_into(&self, destino: &mut EstadisticasGlobales)
        requires
            self.wf(),
            old(destino).wf(),
            old(destino).registros@.len() + self.registros@.len() <= usize::MAX,
        ensures
            final(destino).wf(),
            final(destino).registros@ == old(destino).registros@ + self.registros@,
            suma(totales_juegos(final(destino).juegos@)) == suma(totales_juegos(old(destino).juegos@))
                + suma(totales_juegos(self.juegos@)),
            suma(totales_idiomas(final(destino).por_idioma@)) == suma(
                totales_idiomas(old(destino).por_idioma@),
            ) + suma(totales_idiomas(self.por_idioma@)),
    {
        let ghost ha = destino.registros@;
        let ghost hb = self.registros@;
        fusionar_juegos(&mut destino.juegos, &self.juegos, Ghost(ha), Ghost(hb));
        fusionar_idiomas(&mut destino.por_idioma, &self.por_idioma, Ghost(ha), Ghost(hb));
        destino.registros = Ghost(ha + hb);
    }
}

} // verus!
