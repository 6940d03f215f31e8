//! Deterministic ranking: the first `k` entries by count, descending, with
//! ties broken by name in ascending byte order.
use vstd::prelude::*;
use vstd::utf8::encode_utf8;

verus! {

broadcast use vstd::seq_lib::group_seq_properties;

/// Strict lexicographic order on byte strings; a proper prefix comes first.
pub open spec fn lex_menor(a: Seq<u8>, b: Seq<u8>) -> bool
    decreases a.len(),
{
    if a.len() == 0 {
        b.len() > 0
    } else if b.len() == 0 {
        false
    } else if a[0] != b[0] {
        a[0] < b[0]
    } else {
        lex_menor(a.drop_first(), b.drop_first())
    }
}

/// Name order: the order of the names' UTF-8 bytes, which is the order of
/// Rust's `str` comparison.
pub open spec fn nombre_menor(a: Seq<char>, b: Seq<char>) -> bool {
    lex_menor(encode_utf8(a), encode_utf8(b))
}

/// A ranking key: a count and a name.
pub type Clave = (nat, Seq<char>);

/// `x` ranks before `y`: a larger count, or the same count and a smaller name.
pub open spec fn precede(x: Clave, y: Clave) -> bool {
    x.0 > y.0 || (x.0 == y.0 && nombre_menor(x.1, y.1))
}

pub open spec fn min_nat(a: nat, b: nat) -> nat {
    if a <= b {
        a
    } else {
        b
    }
}

/// `sel` lists, best first, the positions of the `k` best keys of `cl`: no key
/// left out outranks a chosen one, and no chosen key outranks one listed
/// before it.
pub open spec fn es_top(cl: Seq<Clave>, sel: Seq<usize>, k: nat) -> bool {
    &&& sel.len() == min_nat(k, cl.len())
    &&& forall|a: int| 0 <= a < sel.len() ==> #[trigger] sel[a] < cl.len()
    &&& forall|a: int, b: int| 0 <= a < b < sel.len() ==> #[trigger] sel[a] != #[trigger] sel[b]
    &&& forall|a: int, b: int|
        0 <= a < b < sel.len() ==> !precede(cl[#[trigger] sel[b] as int], cl[#[trigger] sel[a] as int])
    &&& forall|j: int, a: int|
        0 <= j < cl.len() && 0 <= a < sel.len() && !sel.contains(j as usize) ==> !precede(
            #[trigger] cl[j],
            cl[#[trigger] sel[a] as int],
        )
}

proof fn lema_lex_transitivo(a: Seq<u8>, b: Seq<u8>, c: Seq<u8>)
    requires
        lex_menor(a, b),
        lex_menor(b, c),
    ensures
        lex_menor(a, c),
    decreases a.len(),
{
    if a.len() > 0 && b.len() > 0 && c.len() > 0 && a[0] == b[0] && b[0] == c[0] {
        lema_lex_transitivo(a.drop_first(), b.drop_first(), c.drop_first());
    }
}

proof fn lema_precede_transitivo(x: Clave, y: Clave, z: Clave)
    requires
        precede(x, y),
        precede(y, z),
    ensures
        precede(x, z),
{
    if x.0 == y.0 && y.0 == z.0 {
        lema_lex_transitivo(encode_utf8(x.1), encode_utf8(y.1), encode_utf8(z.1));
    }
}

/// Compares two names in the order of `nombre_menor`.
pub fn menor_nombre(a: &String, b: &String) -> (r: bool)
    ensures
        r == nombre_menor(a@, b@),
{
    let x = a.as_str().as_bytes();
    let y = b.as_str().as_bytes();
    let ghost xs = x@;
    let ghost ys = y@;
    let mut k: usize = 0;
    while k < x.len() && k < y.len()
        invariant
            k <= x.len(),
            k <= y.len(),
            xs == x@,
            ys == y@,
            xs == encode_utf8(a@),
            ys == encode_utf8(b@),
            lex_menor(xs, ys) == lex_menor(xs.skip(k as int), ys.skip(k as int)),
        decreases x.len() - k,
    {
        if x[k] != y[k] {
            return x[k] < y[k];
        }
        proof {
            assert(xs.skip(k as int).drop_first() =~= xs.skip(k + 1));
            assert(ys.skip(k as int).drop_first() =~= ys.skip(k + 1));
        }
        k = k + 1;
    }
    x.len() - k < y.len() - k
}

/// Number of `true` entries.
pub open spec fn marcadas(s: Seq<bool>) -> nat
    decreases s.len(),
{
    if s.len() == 0 {
        0
    } else {
        marcadas(s.drop_last()) + if s.last() {
            1nat
        } else {
            0nat
        }
    }
}

proof fn lema_marcadas_libre(s: Seq<bool>)
    requires
        marcadas(s) < s.len(),
    ensures
        exists|i: int| 0 <= i < s.len() && !s[i],
    decreases s.len(),
{
    if s.last() {
        lema_marcadas_libre(s.drop_last());
        let i = choose|i: int| 0 <= i < s.len() - 1 && !s.drop_last()[i];
        assert(!s[i]);
    } else {
        assert(!s[s.len() - 1]);
    }
}

proof fn lema_marcadas_update(s: Seq<bool>, i: int)
    requires
        0 <= i < s.len(),
        !s[i],
    ensures
        marcadas(s.update(i, true)) == marcadas(s) + 1,
    decreases s.len(),
{
    if i == s.len() - 1 {
        assert(s.update(i, true).drop_last() =~= s.drop_last());
    } else {
        assert(s.update(i, true).drop_last() =~= s.drop_last().update(i, true));
        lema_marcadas_update(s.drop_last(), i);
    }
}

pub open spec fn claves(v: Seq<(usize, String)>) -> Seq<Clave> {
    v.map_values(|x: (usize, String)| (x.0 as nat, x.1@))
}

/// `x` ranks before `y` (see `precede`).
fn precede_exec(x: &(usize, String), y: &(usize, String)) -> (r: bool)
    ensures
        r == precede((x.0 as nat, x.1@), (y.0 as nat, y.1@)),
{
    x.0 > y.0 || (x.0 == y.0 && menor_nombre(&x.1, &y.1))
}

/// Positions of the `k` best entries of `cl`, best first.
pub fn seleccionar_top(cl: &Vec<(usize, String)>, k: usize) -> (sel: Vec<usize>)
    ensures
        es_top(claves(cl@), sel@, k as nat),
{
    let ghost m = claves(cl@);
    let n = cl.len();
    let mut marcas: Vec<bool> = Vec::new();
    let mut i: usize = 0;
    while i < n
        invariant
            i <= n,
            n == cl.len(),
            marcas.len() == i,
            forall|j: int| 0 <= j < i ==> !marcas@[j],
            marcadas(marcas@) == 0,
        decreases n - i,
    {
        let ghost k0 = marcas@;
        marcas.push(false);
        assert(marcas@.drop_last() =~= k0);
        i = i + 1;
    }
    let mut sel: Vec<usize> = Vec::new();
    while sel.len() < k && sel.len() < n
        invariant
            n == cl.len(),
            m == claves(cl@),
            marcas.len() == n,
            marcadas(marcas@) == sel.len(),
            sel.len() <= k,
            sel.len() <= n,
            forall|j: int| 0 <= j < n ==> (marcas@[j] <==> sel@.contains(j as usize)),
            forall|a: int| 0 <= a < sel.len() ==> #[trigger] sel@[a] < n,
            forall|a: int, b: int| 0 <= a < b < sel.len() ==> #[trigger] sel@[a] != #[trigger] sel@[b],
            forall|a: int, b: int|
                0 <= a < b < sel.len() ==> !precede(m[#[trigger] sel@[b] as int], m[#[trigger] sel@[a] as int]),
            forall|j: int, a: int|
                0 <= j < n && 0 <= a < sel.len() && !sel@.contains(j as usize) ==> !precede(
                    #[trigger] m[j],
                    m[#[trigger] sel@[a] as int],
                ),
        decreases n - sel.len(),
    {
        proof {
            lema_marcadas_libre(marcas@);
        }
        let mut mejor: usize = n;
        let mut j: usize = 0;
        while j < n
            invariant
                n == cl.len(),
                m == claves(cl@),
                marcas.len() == n,
                j <= n,
                mejor == n || (mejor < j && !marcas@[mejor as int]),
                mejor == n ==> forall|t: int| 0 <= t < j ==> marcas@[t],
                mejor < n ==> forall|t: int|
                    0 <= t < j && !marcas@[t] ==> !precede(#[trigger] m[t], m[mejor as int]),
            decreases n - j,
        {
            proof {
                if precede(m[j as int], m[j as int]) {
                    lema_lex_irreflexivo(encode_utf8(m[j as int].1));
                }
                assert(m[j as int] == (cl@[j as int].0 as nat, cl@[j as int].1@));
            }
            if !marcas[j] {
                if mejor == n {
                    mejor = j;
                } else if precede_exec(&cl[j], &cl[mejor]) {
                    proof {
                        assert forall|t: int|
                            0 <= t < j && !marcas@[t] implies !precede(#[trigger] m[t], m[j as int]) by {
                            if precede(m[t], m[j as int]) {
                                lema_precede_transitivo(m[t], m[j as int], m[mejor as int]);
                            }
                        }
                        assert(!precede(m[j as int], m[j as int])) by {
                            if precede(m[j as int], m[j as int]) {
                                lema_lex_irreflexivo(encode_utf8(m[j as int].1));
                            }
                        }
                    }
                    mejor = j;
                }
            }
            j = j + 1;
        }
        assert(mejor < n);
        let ghost s0 = sel@;
        let ghost k0 = marcas@;
        proof {
            lema_marcadas_update(marcas@, mejor as int);
        }
        marcas.set(mejor, true);
        sel.push(mejor);
        proof {
            assert forall|t: int| 0 <= t < n implies (marcas@[t] <==> sel@.contains(t as usize)) by {
                if t == mejor as int {
                    assert(sel@[s0.len() as int] == mejor);
                } else {
                    if sel@.contains(t as usize) {
                        let a = choose|a: int| 0 <= a < sel@.len() && sel@[a] == t as usize;
                        assert(a < s0.len());
                        assert(s0[a] == t as usize);
                    }
                    if s0.contains(t as usize) {
                        let a = choose|a: int| 0 <= a < s0.len() && s0[a] == t as usize;
                        assert(sel@[a] == t as usize);
                    }
                }
            }
            assert forall|a: int, b: int| 0 <= a < b < sel.len() implies #[trigger] sel@[a]
                != #[trigger] sel@[b] by {
                if b == s0.len() {
                    assert(s0.contains(sel@[a]));
                    assert(k0[sel@[a] as int]);
                }
            }
            assert forall|a: int, b: int|
                0 <= a < b < sel.len() implies !precede(m[#[trigger] sel@[b] as int], m[#[trigger] sel@[a] as int]) by {
                if b == s0.len() {
                    assert(!s0.contains(mejor));
                    assert(sel@[a] == s0[a]);
                }
            }
            assert forall|t: int, a: int|
                0 <= t < n && 0 <= a < sel.len() && !sel@.contains(t as usize) implies !precede(
                #[trigger] m[t],
                m[#[trigger] sel@[a] as int],
            ) by {
                assert(!k0[t]) by {
                    if k0[t] {
                        let b = choose|b: int| 0 <= b < s0.len() && s0[b] == t as usize;
                        assert(sel@[b] == t as usize);
                    }
                }
                if a < s0.len() {
                    assert(sel@[a] == s0[a]);
                    assert(!s0.contains(t as usize)) by {
                        if s0.contains(t as usize) {
                            let b = choose|b: int| 0 <= b < s0.len() && s0[b] == t as usize;
                            assert(sel@[b] == t as usize);
                        }
                    }
                }
            }
        }
    }
    sel
}

proof fn lema_lex_irreflexivo(a: Seq<u8>)
    ensures
        !lex_menor(a, a),
    decreases a.len(),
{
    if a.len() > 0 {
        lema_lex_irreflexivo(a.drop_first());
    }
}

} // verus!
