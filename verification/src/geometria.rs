//! How long a shadow is.
//!
//! The sun's elevation enters as its tangent, given as a ratio of two whole
//! numbers. A shadow's length is the height divided by the tangent; it is
//! kept as a fraction over the tangent's numerator, so that nothing of it is
//! rounded away.

use vstd::prelude::*;

verus! {

/// The tangent of the sun's elevation: the light drops `subida` units for
/// every `avance` units that it travels along the line.
#[derive(Clone, Copy, Debug, PartialEq, Eq, Structural)]
pub struct Pendiente {
    /// Drop of the light, the numerator of the tangent.
    pub subida: u64,
    /// Travel of the light along the line, the denominator of the tangent.
    pub avance: u64,
}

impl Pendiente {
    /// The sun is above the horizon: the tangent is not zero.
    pub open spec fn bien_formada(&self) -> bool {
        self.subida > 0
    }
}

/// Length of the shadow of an obstacle of height `h`, counted in parts of
/// which `tangente.subida` make one unit of height: the height divided by
/// the tangent is `h * avance / subida`, and this is its numerator.
pub open spec fn partes_de_sombra(h: int, tangente: Pendiente) -> int {
    h * tangente.avance
}

/// Length of the shadow that an obstacle of height `h` casts under a sun
/// whose elevation has the given tangent. The result counts parts of which
/// `tangente.subida` make one unit: the shadow is `largo / tangente.subida`
/// units long, exactly.
pub fn longitud_de_sombra(h: u64, tangente: Pendiente) -> (largo: u128)
    requires
        tangente.bien_formada(),
    ensures
        largo == partes_de_sombra(h as int, tangente),
        largo == h * tangente.avance,
{
    assert(h * tangente.avance <= u64::MAX * u64::MAX) by (nonlinear_arith)
        requires
            h <= u64::MAX,
            tangente.avance <= u64::MAX,
    ;
    (h as u128) * (tangente.avance as u128)
}

/// An obstacle that stands above the line casts a shadow of positive length
/// whenever the light travels along the line at all, a taller obstacle casts
/// a longer one, and where the tangent is one (the sun at 45 degrees) the
/// shadow is as long as the obstacle is tall.
pub proof fn lema_largo_de_sombra(h1: int, h2: int, tangente: Pendiente)
    requires
        tangente.bien_formada(),
        0 <= h1 <= h2,
    ensures
        0 <= partes_de_sombra(h1, tangente) <= partes_de_sombra(h2, tangente),
        h1 > 0 && tangente.avance > 0 ==> partes_de_sombra(h1, tangente) > 0,
        h1 < h2 && tangente.avance > 0 ==> partes_de_sombra(h1, tangente) < partes_de_sombra(
            h2,
            tangente,
        ),
        tangente.subida == tangente.avance ==> partes_de_sombra(h1, tangente) == h1
            * tangente.subida,
{
    let a = tangente.avance as int;
    assert(0 <= h1 * a <= h2 * a) by (nonlinear_arith)
        requires
            0 <= h1 <= h2,
            0 <= a,
    ;
    assert(h1 > 0 && a > 0 ==> h1 * a > 0) by (nonlinear_arith);
    assert(h1 < h2 && a > 0 ==> h1 * a < h2 * a) by (nonlinear_arith);
}

/// A steeper sun casts a shorter shadow: of two tangents, the greater one
/// gives the lesser quotient of the same height.
pub proof fn lema_sombra_decrece_con_la_tangente(h: int, baja: Pendiente, alta: Pendiente)
    requires
        baja.bien_formada(),
        alta.bien_formada(),
        h > 0,
        baja.avance > 0,
        baja.subida * alta.avance < alta.subida * baja.avance,
    ensures
        partes_de_sombra(h, alta) * baja.subida < partes_de_sombra(h, baja) * alta.subida,
{
    let bs = baja.subida as int;
    let ba = baja.avance as int;
    let al_s = alta.subida as int;
    let al_a = alta.avance as int;
    assert((h * al_a) * bs < (h * ba) * al_s) by (nonlinear_arith)
        requires
            h > 0,
            bs * al_a < al_s * ba,
    ;
}

} // verus!
