//! Union of a collection of segments: its disjoint pieces and its length.

use crate::flatlander::Flatlander;
use crate::geometria::{lema_largo_de_sombra, longitud_de_sombra, partes_de_sombra, Pendiente};
use crate::intervalo::Intervalo;
use vstd::prelude::*;
use vstd::set_lib::{lemma_int_range, lemma_set_disjoint_lens, set_int_range};

verus! {

/// Every segment of `s` is well formed.
pub open spec fn todos_bien_formados(s: Seq<Intervalo>) -> bool {
    forall|i: int| 0 <= i < s.len() ==> (#[trigger] s[i]).bien_formado()
}

/// Left ends never decrease along `s`.
pub open spec fn ordenados_por_inicio(s: Seq<Intervalo>) -> bool {
    forall|i: int, j: int| 0 <= i <= j < s.len() ==> s[i].inicio <= s[j].inicio
}

/// Each segment of `s` ends before the next one begins, so that no two of
/// them share a point.
pub open spec fn separados(s: Seq<Intervalo>) -> bool {
    forall|i: int, j: int| 0 <= i < j < s.len() ==> s[i].fin < s[j].inicio
}

/// The points of the line that lie on some segment of `s`.
pub open spec fn puntos_cubiertos(s: Seq<Intervalo>) -> Set<int> {
    Set::new(|x: int| exists|i: int| 0 <= i < s.len() && (#[trigger] s[i]).contiene_punto(x))
}

/// The unit stretches of the line that lie on some segment of `s`, each
/// named by its left end.
pub open spec fn tramos_cubiertos(s: Seq<Intervalo>) -> Set<int> {
    Set::new(|x: int| exists|i: int| 0 <= i < s.len() && (#[trigger] s[i]).contiene_tramo(x))
}

/// Length of the union of the segments of `s`: the number of unit stretches
/// that at least one of them covers.
pub open spec fn longitud_cubierta(s: Seq<Intervalo>) -> nat {
    tramos_cubiertos(s).len()
}

/// `a` and `b` hold the same segments the same number of times, in whatever
/// order.
pub open spec fn es_permutacion(a: Seq<Intervalo>, b: Seq<Intervalo>) -> bool {
    a.to_multiset() == b.to_multiset()
}

/// Sorts the segments by their left end, smallest first.
///
/// Segments already in order are left as they are. Otherwise segments with
/// equal left ends may come out in any order.
pub fn ordenar_por_inicio(intervalos: &mut Vec<Intervalo>)
    ensures
        ordenados_por_inicio(final(intervalos)@),
        es_permutacion(final(intervalos)@, old(intervalos)@),
        final(intervalos)@.len() == old(intervalos)@.len(),
        ordenados_por_inicio(old(intervalos)@) ==> final(intervalos)@ == old(intervalos)@,
{
    let n = intervalos.len();
    let mut i: usize = 0;
    while i < n
        invariant
            i <= n,
            intervalos.len() == n,
            es_permutacion(intervalos@, old(intervalos)@),
            ordenados_por_inicio(old(intervalos)@) ==> intervalos@ == old(intervalos)@,
            forall|a: int, b: int| 0 <= a <= b < i ==> intervalos[a].inicio <= intervalos[b].inicio,
            forall|a: int, b: int| 0 <= a < i <= b < n ==> intervalos[a].inicio <= intervalos[b].inicio,
        decreases n - i,
    {
        let mut min: usize = i;
        let mut j: usize = i + 1;
        while j < n
            invariant
                i <= min < j <= n,
                intervalos.len() == n,
                forall|k: int| i <= k < j ==> intervalos[min as int].inicio <= intervalos[k].inicio,
                ordenados_por_inicio(intervalos@) ==> min == i,
            decreases n - j,
        {
            if intervalos[j].inicio < intervalos[min].inicio {
                min = j;
            }
            j += 1;
        }
        if min != i {
            let ghost antes = intervalos@;
            let primero = intervalos[i];
            let menor = intervalos[min];
            intervalos.set(i, menor);
            intervalos.set(min, primero);
            proof {
                lema_intercambio_es_permutacion(antes, i as int, min as int);
            }
        }
        i += 1;
    }
}

/// The pieces of the union of the given segments: segments that keep apart
/// from one another and together cover exactly what the given ones cover.
/// There is one such collection only ([`lema_piezas_unicas`]).
///
/// The pieces come out from left to right. Segments that overlap or that
/// share an end fall into one piece.
pub fn union_disjunta(intervalos: Vec<Intervalo>) -> (piezas: Vec<Intervalo>)
    requires
        todos_bien_formados(intervalos@),
    ensures
        todos_bien_formados(piezas@),
        separados(piezas@),
        puntos_cubiertos(piezas@) == puntos_cubiertos(intervalos@),
        tramos_cubiertos(piezas@) == tramos_cubiertos(intervalos@),
{
    let ghost entrada = intervalos@;
    let mut intervalos = intervalos;
    let mut piezas: Vec<Intervalo> = Vec::new();
    let n = intervalos.len();
    if n == 0 {
        assert(puntos_cubiertos(piezas@) =~= puntos_cubiertos(entrada));
        assert(tramos_cubiertos(piezas@) =~= tramos_cubiertos(entrada));
        return piezas;
    }
    ordenar_por_inicio(&mut intervalos);
    let mut actual = Intervalo::nuevo(intervalos[0].inicio, intervalos[0].fin);
    proof {
        lema_cobertura_de_permutacion(intervalos@, entrada);
        assert(actual == intervalos[0]);
        assert(intervalos@.take(1) =~= Seq::<Intervalo>::empty().push(actual));
        lema_cobertura_al_agregar(Seq::empty(), actual);
        assert(puntos_cubiertos(Seq::empty()) =~= Set::<int>::empty());
        assert(tramos_cubiertos(Seq::empty()) =~= Set::<int>::empty());
        assert(puntos_cubiertos(piezas@) + actual.puntos() =~= puntos_cubiertos(
            intervalos@.take(1),
        ));
        assert(tramos_cubiertos(piezas@) + actual.tramos() =~= tramos_cubiertos(
            intervalos@.take(1),
        ));
    }
    let mut i: usize = 1;
    while i < n
        invariant
            1 <= i <= n,
            intervalos.len() == n,
            ordenados_por_inicio(intervalos@),
            todos_bien_formados(intervalos@),
            todos_bien_formados(piezas@),
            separados(piezas@),
            actual.bien_formado(),
            forall|k: int| 0 <= k < piezas.len() ==> piezas[k].fin < actual.inicio,
            forall|j: int| i <= j < n ==> actual.inicio <= intervalos[j].inicio,
            puntos_cubiertos(piezas@) + actual.puntos() == puntos_cubiertos(
                intervalos@.take(i as int),
            ),
            tramos_cubiertos(piezas@) + actual.tramos() == tramos_cubiertos(
                intervalos@.take(i as int),
            ),
        decreases n - i,
    {
        let siguiente = intervalos[i];
        proof {
            assert(siguiente.bien_formado());
            assert(intervalos@.take(i + 1) =~= intervalos@.take(i as int).push(siguiente));
            lema_cobertura_al_agregar(intervalos@.take(i as int), siguiente);
        }
        if siguiente.inicio <= actual.fin {
            let ghost previo = actual;
            if siguiente.fin > actual.fin {
                actual.fin = siguiente.fin;
            }
            proof {
                assert(actual.puntos() =~= previo.puntos() + siguiente.puntos());
                assert(actual.tramos() =~= previo.tramos() + siguiente.tramos());
                assert(puntos_cubiertos(piezas@) + actual.puntos() =~= puntos_cubiertos(piezas@)
                    + previo.puntos() + siguiente.puntos());
                assert(tramos_cubiertos(piezas@) + actual.tramos() =~= tramos_cubiertos(piezas@)
                    + previo.tramos() + siguiente.tramos());
            }
        } else {
            proof {
                lema_cobertura_al_agregar(piezas@, actual);
            }
            piezas.push(actual);
            actual = Intervalo::nuevo(siguiente.inicio, siguiente.fin);
        }
        i += 1;
    }
    proof {
        lema_cobertura_al_agregar(piezas@, actual);
        assert(intervalos@.take(n as int) =~= intervalos@);
    }
    piezas.push(actual);
    piezas
}

/// Total length of the line covered by at least one of the given segments.
/// Where segments overlap the ground under them is counted once.
pub fn longitud_union(intervalos: Vec<Intervalo>) -> (total: u64)
    requires
        todos_bien_formados(intervalos@),
    ensures
        total == longitud_cubierta(intervalos@),
{
    let piezas = union_disjunta(intervalos);
    let mut total: u64 = 0;
    let mut k: usize = 0;
    proof {
        assert(tramos_cubiertos(piezas@.take(0)) =~= Set::<int>::empty());
    }
    while k < piezas.len()
        invariant
            k <= piezas.len(),
            todos_bien_formados(piezas@),
            separados(piezas@),
            tramos_cubiertos(piezas@.take(k as int)).finite(),
            total == tramos_cubiertos(piezas@.take(k as int)).len(),
            k == 0 ==> total == 0,
            k > 0 ==> total <= piezas[k - 1].fin - i64::MIN,
        decreases piezas.len() - k,
    {
        let pieza = piezas[k];
        proof {
            let antes = piezas@.take(k as int);
            assert(pieza.bien_formado());
            assert(piezas@.take(k + 1) =~= antes.push(pieza));
            lema_cobertura_al_agregar(antes, pieza);
            assert(pieza.tramos() =~= set_int_range(pieza.inicio as int, pieza.fin as int));
            lemma_int_range(pieza.inicio as int, pieza.fin as int);
            assert(tramos_cubiertos(antes).disjoint(pieza.tramos())) by {
                assert forall|x: int| tramos_cubiertos(antes).contains(x) implies !pieza.tramos().contains(x) by {
                    let j = choose|j: int| 0 <= j < antes.len() && (#[trigger] antes[j]).contiene_tramo(x);
                    assert(piezas[j].fin < piezas[k as int].inicio);
                }
            }
            lemma_set_disjoint_lens(tramos_cubiertos(antes), pieza.tramos());
            if k > 0 {
                assert(piezas[k - 1].fin < piezas[k as int].inicio);
            }
        }
        total = total + pieza.longitud();
        k += 1;
    }
    proof {
        assert(piezas@.take(k as int) =~= piezas@);
    }
    total
}

/// The shadow of one obstacle: the segment from where it stands to where its
/// shadow ends, on a line measured in parts of which `tangente.subida` make
/// one unit of the obstacle's position and height.
pub open spec fn sombra_de(f: Flatlander, tangente: Pendiente) -> Intervalo {
    Intervalo {
        inicio: (f.x * tangente.subida) as i64,
        fin: (f.x * tangente.subida + partes_de_sombra(f.h as int, tangente)) as i64,
    }
}

/// Both ends of the shadow of `f` are positions of the line.
pub open spec fn sombra_cabe(f: Flatlander, tangente: Pendiente) -> bool {
    &&& i64::MIN <= f.x * tangente.subida
    &&& f.x * tangente.subida + partes_de_sombra(f.h as int, tangente) <= i64::MAX
}

/// The shadows of the given obstacles, one for each and in the same order.
///
/// The shadows lie on a line measured in parts of which `tangente.subida`
/// make one unit of the obstacles' positions and heights: the obstacle at `x`
/// of height `h` covers the parts from `x * subida` to `x * subida + h *
/// avance`, which is from `x` to `x` plus the height divided by the tangent.
/// Lengths taken on the shadows are in the same parts.
pub fn sombras_desde_flatlanders(flatlanders: &[Flatlander], tangente: Pendiente) -> (sombras: Vec<
    Intervalo,
>)
    requires
        tangente.bien_formada(),
        forall|i: int| 0 <= i < flatlanders@.len() ==> sombra_cabe(#[trigger] flatlanders@[i], tangente),
    ensures
        sombras@.len() == flatlanders@.len(),
        forall|i: int|
            0 <= i < flatlanders@.len() ==> #[trigger] sombras@[i] == sombra_de(
                flatlanders@[i],
                tangente,
            ),
        todos_bien_formados(sombras@),
{
    let n = flatlanders.len();
    let mut vector: Vec<Intervalo> = Vec::with_capacity(n);
    let mut i: usize = 0;
    while i < n
        invariant
            i <= n,
            n == flatlanders@.len(),
            tangente.bien_formada(),
            forall|k: int| 0 <= k < n ==> sombra_cabe(#[trigger] flatlanders@[k], tangente),
            vector@.len() == i,
            forall|k: int| 0 <= k < i ==> #[trigger] vector@[k] == sombra_de(flatlanders@[k], tangente),
            todos_bien_formados(vector@),
        decreases n - i,
    {
        let flatlander = flatlanders[i];
        proof {
            assert(sombra_cabe(flatlanders@[i as int], tangente));
            lema_producto_acotado(flatlander.x as int, tangente.subida as int);
            lema_largo_de_sombra(flatlander.h as int, flatlander.h as int, tangente);
        }
        let largo = longitud_de_sombra(flatlander.h, tangente);
        let inicio = (flatlander.x as i128) * (tangente.subida as i128);
        let fin = inicio + largo as i128;
        vector.push(Intervalo::nuevo(inicio as i64, fin as i64));
        i += 1;
    }
    vector
}

/// The shadow of an obstacle is as long as its height divided by the
/// tangent: its length, in parts of which `tangente.subida` make a unit, is
/// the height times `tangente.avance`.
pub proof fn lema_largo_de_sombra_de(f: Flatlander, tangente: Pendiente)
    requires
        tangente.bien_formada(),
        sombra_cabe(f, tangente),
    ensures
        sombra_de(f, tangente).bien_formado(),
        sombra_de(f, tangente).inicio == f.x * tangente.subida,
        sombra_de(f, tangente).largo() == f.h * tangente.avance,
        f.h > 0 && tangente.avance > 0 ==> sombra_de(f, tangente).largo() > 0,
{
    lema_largo_de_sombra(f.h as int, f.h as int, tangente);
}

/// A position times a tangent's numerator stays well within 128 bits.
proof fn lema_producto_acotado(x: int, s: int)
    requires
        i64::MIN <= x <= i64::MAX,
        0 <= s <= u64::MAX,
    ensures
        -0x8000_0000_0000_0000_0000_0000_0000_0000 < x * s
            < 0x8000_0000_0000_0000_0000_0000_0000_0000,
{
    assert(-0x8000_0000_0000_0000 * 0xffff_ffff_ffff_ffff <= x * s <= 0x7fff_ffff_ffff_ffff
        * 0xffff_ffff_ffff_ffff) by (nonlinear_arith)
        requires
            -0x8000_0000_0000_0000 <= x <= 0x7fff_ffff_ffff_ffff,
            0 <= s <= 0xffff_ffff_ffff_ffff,
    ;
}

/// Exchanging two entries of a sequence leaves the same entries in it.
proof fn lema_intercambio_es_permutacion(s: Seq<Intervalo>, i: int, j: int)
    requires
        0 <= i < s.len(),
        0 <= j < s.len(),
    ensures
        es_permutacion(s.update(i, s[j]).update(j, s[i]), s),
{
    broadcast use vstd::seq_lib::to_multiset_update;
    broadcast use vstd::seq_lib::to_multiset_contains;
    let t = s.update(i, s[j]);
    assert(s.contains(s[i]));
    assert(s.contains(s[j]));
    assert(t.contains(t[i]));
    assert(t.update(j, s[i]).to_multiset() =~= s.to_multiset());
}

/// Adding a segment to a collection adds its points and its unit stretches
/// to what the collection covers, and nothing else.
pub proof fn lema_cobertura_al_agregar(s: Seq<Intervalo>, iv: Intervalo)
    ensures
        puntos_cubiertos(s.push(iv)) == puntos_cubiertos(s) + iv.puntos(),
        tramos_cubiertos(s.push(iv)) == tramos_cubiertos(s) + iv.tramos(),
{
    let t = s.push(iv);
    assert forall|x: int| puntos_cubiertos(t).contains(x) == (puntos_cubiertos(s) + iv.puntos()).contains(x) by {
        if puntos_cubiertos(s).contains(x) {
            let i = choose|i: int| 0 <= i < s.len() && (#[trigger] s[i]).contiene_punto(x);
            assert(t[i].contiene_punto(x));
        }
        if iv.contiene_punto(x) {
            assert(t[s.len() as int].contiene_punto(x));
        }
        if puntos_cubiertos(t).contains(x) {
            let i = choose|i: int| 0 <= i < t.len() && (#[trigger] t[i]).contiene_punto(x);
            if i < s.len() {
                assert(s[i].contiene_punto(x));
            }
        }
    }
    assert(puntos_cubiertos(t) =~= puntos_cubiertos(s) + iv.puntos());
    assert forall|x: int| tramos_cubiertos(t).contains(x) == (tramos_cubiertos(s) + iv.tramos()).contains(x) by {
        if tramos_cubiertos(s).contains(x) {
            let i = choose|i: int| 0 <= i < s.len() && (#[trigger] s[i]).contiene_tramo(x);
            assert(t[i].contiene_tramo(x));
        }
        if iv.contiene_tramo(x) {
            assert(t[s.len() as int].contiene_tramo(x));
        }
        if tramos_cubiertos(t).contains(x) {
            let i = choose|i: int| 0 <= i < t.len() && (#[trigger] t[i]).contiene_tramo(x);
            if i < s.len() {
                assert(s[i].contiene_tramo(x));
            }
        }
    }
    assert(tramos_cubiertos(t) =~= tramos_cubiertos(s) + iv.tramos());
}

/// What a collection covers does not depend on the order of its segments,
/// and neither does whether all of them are well formed.
pub proof fn lema_cobertura_de_permutacion(a: Seq<Intervalo>, b: Seq<Intervalo>)
    requires
        es_permutacion(a, b),
    ensures
        puntos_cubiertos(a) == puntos_cubiertos(b),
        tramos_cubiertos(a) == tramos_cubiertos(b),
        todos_bien_formados(a) == todos_bien_formados(b),
{
    lema_mismos_elementos(a, b);
    lema_mismos_elementos(b, a);
    assert forall|x: int| puntos_cubiertos(a).contains(x) == puntos_cubiertos(b).contains(x) by {
        if puntos_cubiertos(a).contains(x) {
            let i = choose|i: int| 0 <= i < a.len() && (#[trigger] a[i]).contiene_punto(x);
            let j = choose|j: int| 0 <= j < b.len() && b[j] == a[i];
            assert(b[j].contiene_punto(x));
        }
        if puntos_cubiertos(b).contains(x) {
            let i = choose|i: int| 0 <= i < b.len() && (#[trigger] b[i]).contiene_punto(x);
            let j = choose|j: int| 0 <= j < a.len() && a[j] == b[i];
            assert(a[j].contiene_punto(x));
        }
    }
    assert(puntos_cubiertos(a) =~= puntos_cubiertos(b));
    assert forall|x: int| tramos_cubiertos(a).contains(x) == tramos_cubiertos(b).contains(x) by {
        if tramos_cubiertos(a).contains(x) {
            let i = choose|i: int| 0 <= i < a.len() && (#[trigger] a[i]).contiene_tramo(x);
            let j = choose|j: int| 0 <= j < b.len() && b[j] == a[i];
            assert(b[j].contiene_tramo(x));
        }
        if tramos_cubiertos(b).contains(x) {
            let i = choose|i: int| 0 <= i < b.len() && (#[trigger] b[i]).contiene_tramo(x);
            let j = choose|j: int| 0 <= j < a.len() && a[j] == b[i];
            assert(a[j].contiene_tramo(x));
        }
    }
    assert(tramos_cubiertos(a) =~= tramos_cubiertos(b));
    if todos_bien_formados(a) {
        assert forall|i: int| 0 <= i < b.len() implies (#[trigger] b[i]).bien_formado() by {
            let j = choose|j: int| 0 <= j < a.len() && a[j] == b[i];
            assert(a[j].bien_formado());
        }
    }
    if todos_bien_formados(b) {
        assert forall|i: int| 0 <= i < a.len() implies (#[trigger] a[i]).bien_formado() by {
            let j = choose|j: int| 0 <= j < b.len() && b[j] == a[i];
            assert(b[j].bien_formado());
        }
    }
}

/// Each entry of a sequence is found in any permutation of it.
proof fn lema_mismos_elementos(a: Seq<Intervalo>, b: Seq<Intervalo>)
    requires
        es_permutacion(a, b),
    ensures
        forall|i: int| 0 <= i < a.len() ==> b.contains(#[trigger] a[i]),
{
    broadcast use vstd::seq_lib::to_multiset_contains;
    assert forall|i: int| 0 <= i < a.len() implies b.contains(#[trigger] a[i]) by {
        assert(a.contains(a[i]));
        assert(a.to_multiset().count(a[i]) > 0);
    }
}

/// The length of the union is the same in whatever order the segments are
/// given.
pub proof fn lema_longitud_de_permutacion(a: Seq<Intervalo>, b: Seq<Intervalo>)
    requires
        es_permutacion(a, b),
    ensures
        longitud_cubierta(a) == longitud_cubierta(b),
{
    lema_cobertura_de_permutacion(a, b);
}

/// No segments cover no ground.
pub proof fn lema_longitud_de_ninguno()
    ensures
        longitud_cubierta(Seq::<Intervalo>::empty()) == 0,
{
    assert(tramos_cubiertos(Seq::<Intervalo>::empty()) =~= Set::<int>::empty());
}

/// A single well-formed segment covers its own length.
pub proof fn lema_longitud_de_uno(iv: Intervalo)
    requires
        iv.bien_formado(),
    ensures
        longitud_cubierta(seq![iv]) == iv.fin - iv.inicio,
{
    lema_cobertura_al_agregar(Seq::empty(), iv);
    assert(Seq::<Intervalo>::empty().push(iv) =~= seq![iv]);
    assert(tramos_cubiertos(Seq::<Intervalo>::empty()) =~= Set::<int>::empty());
    assert(tramos_cubiertos(seq![iv]) =~= set_int_range(iv.inicio as int, iv.fin as int));
    lemma_int_range(iv.inicio as int, iv.fin as int);
}

/// Among well-formed segments that keep apart from one another, each one is
/// found again in any other such collection that covers the same points and
/// the same unit stretches.
proof fn lema_pieza_compartida(a: Seq<Intervalo>, b: Seq<Intervalo>, i: int) -> (j: int)
    requires
        todos_bien_formados(a),
        todos_bien_formados(b),
        separados(a),
        separados(b),
        puntos_cubiertos(a) == puntos_cubiertos(b),
        tramos_cubiertos(a) == tramos_cubiertos(b),
        0 <= i < a.len(),
    ensures
        0 <= j < b.len(),
        b[j] == a[i],
{
    let p = a[i];
    assert(p.bien_formado());
    assert(a[i].contiene_punto(p.inicio as int));
    assert(puntos_cubiertos(a).contains(p.inicio as int));
    assert(puntos_cubiertos(b).contains(p.inicio as int));
    let j = choose|j: int| 0 <= j < b.len() && (#[trigger] b[j]).contiene_punto(p.inicio as int);
    let q = b[j];
    assert(q.bien_formado());
    if q.inicio < p.inicio {
        let x = p.inicio - 1;
        assert(b[j].contiene_tramo(x));
        assert(tramos_cubiertos(b).contains(x));
        assert(tramos_cubiertos(a).contains(x));
        let k = choose|k: int| 0 <= k < a.len() && (#[trigger] a[k]).contiene_tramo(x);
        assert(k != i);
        if k < i {
            assert(a[k].fin < a[i].inicio);
        } else {
            assert(a[i].fin < a[k].inicio);
        }
        assert(false);
    }
    if q.fin < p.fin {
        let x = q.fin as int;
        assert(a[i].contiene_tramo(x));
        assert(tramos_cubiertos(a).contains(x));
        assert(tramos_cubiertos(b).contains(x));
        let m = choose|m: int| 0 <= m < b.len() && (#[trigger] b[m]).contiene_tramo(x);
        assert(m != j);
        if m < j {
            assert(b[m].fin < b[j].inicio);
        } else {
            assert(b[j].fin < b[m].inicio);
        }
        assert(false);
    }
    if q.fin > p.fin {
        let x = p.fin as int;
        assert(b[j].contiene_tramo(x));
        assert(tramos_cubiertos(b).contains(x));
        assert(tramos_cubiertos(a).contains(x));
        let k = choose|k: int| 0 <= k < a.len() && (#[trigger] a[k]).contiene_tramo(x);
        assert(k != i);
        if k < i {
            assert(a[k].fin < a[i].inicio);
        } else {
            assert(a[i].fin < a[k].inicio);
        }
        assert(false);
    }
    j
}

/// Two collections as in [`lema_piezas_unicas`] agree on their first `n`
/// segments, and each has that many if the other has.
proof fn lema_piezas_iguales_hasta(a: Seq<Intervalo>, b: Seq<Intervalo>, n: int)
    requires
        todos_bien_formados(a),
        todos_bien_formados(b),
        separados(a),
        separados(b),
        puntos_cubiertos(a) == puntos_cubiertos(b),
        tramos_cubiertos(a) == tramos_cubiertos(b),
        0 <= n <= a.len(),
    ensures
        n <= b.len(),
        forall|k: int| 0 <= k < n ==> a[k] == b[k],
    decreases n,
{
    if n > 0 {
        lema_piezas_iguales_hasta(a, b, n - 1);
        let i = n - 1;
        let j = lema_pieza_compartida(a, b, i);
        assert(a[i].bien_formado());
        if j < i {
            assert(a[j] == b[j]);
            assert(a[j].fin < a[i].inicio);
            assert(false);
        }
        let m = lema_pieza_compartida(b, a, i);
        assert(b[i].bien_formado());
        if m < i {
            assert(a[m] == b[m]);
            assert(b[m].fin < b[i].inicio);
            assert(false);
        }
        if j > i {
            assert(b[i].fin < b[j].inicio);
            if m > i {
                assert(a[i].fin < a[m].inicio);
            }
            assert(false);
        }
    }
}

/// The pieces of a union are determined by what the union covers: two
/// collections of well-formed segments, each keeping its segments apart and
/// in order, that cover the same points and the same unit stretches are the
/// same collection.
pub proof fn lema_piezas_unicas(a: Seq<Intervalo>, b: Seq<Intervalo>)
    requires
        todos_bien_formados(a),
        todos_bien_formados(b),
        separados(a),
        separados(b),
        puntos_cubiertos(a) == puntos_cubiertos(b),
        tramos_cubiertos(a) == tramos_cubiertos(b),
    ensures
        a == b,
{
    lema_piezas_iguales_hasta(a, b, a.len() as int);
    lema_piezas_iguales_hasta(b, a, b.len() as int);
    assert(a =~= b);
}

} // verus!
