//! Closed segments of the integer line.

use vstd::math::{abs, max, min};
use vstd::prelude::*;

verus! {

/// The closed segment `[inicio, fin]` of the line.
///
/// A segment is well formed when `inicio <= fin`. [`Intervalo::nuevo`] always
/// gives a well-formed segment and [`Intervalo::unir`] keeps it so; the fields
/// are public, and a segment assembled by hand is the caller's to keep in
/// order.
#[derive(Clone, Copy, Debug, PartialEq, Eq, Structural)]
pub struct Intervalo {
    /// Left end.
    pub inicio: i64,
    /// Right end.
    pub fin: i64,
}

impl Intervalo {
    /// The left end is not to the right of the right end.
    pub open spec fn bien_formado(&self) -> bool {
        self.inicio <= self.fin
    }

    /// The segment between two ends given in either order.
    pub open spec fn entre(a: i64, b: i64) -> Intervalo {
        if a <= b {
            Intervalo { inicio: a, fin: b }
        } else {
            Intervalo { inicio: b, fin: a }
        }
    }

    /// Distance from the left end to the right end.
    pub open spec fn largo(&self) -> int {
        self.fin - self.inicio
    }

    /// The point `x` lies on the segment, ends included.
    pub open spec fn contiene_punto(&self, x: int) -> bool {
        self.inicio <= x <= self.fin
    }

    /// The unit stretch from `x` to `x + 1` lies on the segment.
    pub open spec fn contiene_tramo(&self, x: int) -> bool {
        self.inicio <= x < self.fin
    }

    /// The points of the line that lie on the segment.
    pub open spec fn puntos(&self) -> Set<int> {
        Set::new(|x: int| self.contiene_punto(x))
    }

    /// The unit stretches that lie on the segment, each named by its left end.
    pub open spec fn tramos(&self) -> Set<int> {
        Set::new(|x: int| self.contiene_tramo(x))
    }

    /// Neither segment lies wholly to one side of the other. Segments that
    /// share only an end do overlap.
    pub open spec fn solapa_con(&self, otro: Intervalo) -> bool {
        self.inicio <= otro.fin && otro.inicio <= self.fin
    }

    /// The shortest segment that holds both `self` and `otro`.
    pub open spec fn envolvente(&self, otro: Intervalo) -> Intervalo {
        Intervalo {
            inicio: min(self.inicio as int, otro.inicio as int) as i64,
            fin: max(self.fin as int, otro.fin as int) as i64,
        }
    }

    /// Builds the segment whose ends are `inicio` and `fin`, swapping them
    /// when they come in reverse order.
    pub fn nuevo(inicio: i64, fin: i64) -> (r: Self)
        ensures
            r == Self::entre(inicio, fin),
            r.inicio == min(inicio as int, fin as int),
            r.fin == max(inicio as int, fin as int),
    {
        if inicio <= fin {
            Self { inicio, fin }
        } else {
            Self { inicio: fin, fin: inicio }
        }
    }

    /// Length of the segment.
    pub fn longitud(&self) -> (l: u64)
        requires
            self.bien_formado(),
        ensures
            l == self.largo(),
    {
        (self.fin as i128 - self.inicio as i128) as u64
    }

    /// Whether the two segments have a point in common.
    pub fn se_solapa(&self, segundo_intervalo: &Intervalo) -> (b: bool)
        ensures
            b == self.solapa_con(*segundo_intervalo),
    {
        self.inicio <= segundo_intervalo.fin && segundo_intervalo.inicio <= self.fin
    }

    /// Stretches `self` until it also holds `segundo_intervalo`. Whatever lay
    /// between two segments that did not overlap is taken in as well.
    pub fn unir(&mut self, segundo_intervalo: &Intervalo)
        ensures
            *final(self) == old(self).envolvente(*segundo_intervalo),
            final(self).inicio == min(old(self).inicio as int, segundo_intervalo.inicio as int),
            final(self).fin == max(old(self).fin as int, segundo_intervalo.fin as int),
    {
        if segundo_intervalo.inicio < self.inicio {
            self.inicio = segundo_intervalo.inicio;
        }
        if segundo_intervalo.fin > self.fin {
            self.fin = segundo_intervalo.fin;
        }
    }
}

/// A segment built from two ends is well formed whichever end came first, and
/// its length is the distance between the two ends.
pub proof fn lema_nuevo_ordena_y_mide(a: i64, b: i64)
    ensures
        Intervalo::entre(a, b).bien_formado(),
        Intervalo::entre(a, b).largo() == abs(a - b),
        Intervalo::entre(a, b) == Intervalo::entre(b, a),
{
}

/// Overlapping does not depend on which of the two segments is asked.
pub proof fn lema_solapa_simetrica(a: Intervalo, b: Intervalo)
    ensures
        a.solapa_con(b) == b.solapa_con(a),
{
}

/// Two well-formed segments overlap exactly when some point lies on both.
pub proof fn lema_solapa_es_punto_comun(a: Intervalo, b: Intervalo)
    requires
        a.bien_formado(),
        b.bien_formado(),
    ensures
        a.solapa_con(b) <==> exists|x: int| a.contiene_punto(x) && b.contiene_punto(x),
{
    if a.solapa_con(b) {
        let x = max(a.inicio as int, b.inicio as int);
        assert(a.contiene_punto(x) && b.contiene_punto(x));
    }
}

/// The hull of two segments holds both, is well formed when either is, and
/// when the two overlap it holds no point that neither of them holds.
pub proof fn lema_envolvente(a: Intervalo, b: Intervalo)
    requires
        a.bien_formado(),
        b.bien_formado(),
    ensures
        a.envolvente(b).bien_formado(),
        forall|x: int| a.contiene_punto(x) || b.contiene_punto(x) ==> #[trigger] a.envolvente(b).contiene_punto(x),
        a.solapa_con(b) ==> forall|x: int| #[trigger] a.envolvente(b).contiene_punto(x) ==> a.contiene_punto(x) || b.contiene_punto(x),
{
}

} // verus!
