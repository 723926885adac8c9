//! Whole-number places for numbers written as a sign and a magnitude.
//!
//! The segments of this library have whole numbers for ends. A number that
//! comes as 64 bits, the topmost its sign and the other 63 its magnitude, as
//! the bits of an IEEE 754 double do, is given the whole number that stands
//! where it stands among all such numbers: the magnitude itself, or its
//! negative where the sign bit is set. Comparing two places is then comparing
//! the two numbers, and both zeros have the place zero.

use vstd::prelude::*;

verus! {

/// The sign bit of a 64-bit sign-and-magnitude number.
pub const BIT_DE_SIGNO: u64 = 0x8000_0000_0000_0000;

/// The sign bit of `bits` is set.
pub open spec fn es_negativo(bits: u64) -> bool {
    bits >= BIT_DE_SIGNO
}

/// The 63 bits of `bits` below its sign bit.
pub open spec fn magnitud(bits: u64) -> int {
    if bits >= BIT_DE_SIGNO {
        bits - BIT_DE_SIGNO
    } else {
        bits as int
    }
}

/// The place of `bits`: its magnitude, taken negative under a set sign bit.
pub open spec fn lugar(bits: u64) -> int {
    if es_negativo(bits) {
        -magnitud(bits)
    } else {
        magnitud(bits)
    }
}

/// The bits whose place is `clave`. Of the two zeros it is the one without
/// the sign bit.
pub open spec fn bits_en(clave: int) -> int {
    if clave >= 0 {
        clave
    } else {
        BIT_DE_SIGNO - clave
    }
}

/// The place of a sign-and-magnitude number among all of them.
pub fn clave_de_bits(bits: u64) -> (clave: i64)
    ensures
        clave == lugar(bits),
        i64::MIN < clave,
{
    if bits < BIT_DE_SIGNO {
        bits as i64
    } else {
        -((bits - BIT_DE_SIGNO) as i64)
    }
}

/// The sign-and-magnitude number that has the place `clave`. The least
/// 64-bit whole number is the place of none.
pub fn bits_de_clave(clave: i64) -> (bits: u64)
    requires
        i64::MIN < clave,
    ensures
        bits == bits_en(clave as int),
        lugar(bits) == clave,
{
    if clave >= 0 {
        clave as u64
    } else {
        BIT_DE_SIGNO + ((-clave) as u64)
    }
}

/// Places are in the order of the numbers: among numbers without the sign
/// bit the greater magnitude has the greater place, among those with it the
/// lesser place, a number with the sign bit never has a greater place than
/// one without, and two numbers share a place only if they are the same or
/// are the two zeros.
pub proof fn lema_lugar_guarda_el_orden(a: u64, b: u64)
    ensures
        !es_negativo(a) && !es_negativo(b) ==> (lugar(a) < lugar(b) <==> magnitud(a) < magnitud(b)),
        es_negativo(a) && es_negativo(b) ==> (lugar(a) < lugar(b) <==> magnitud(a) > magnitud(b)),
        es_negativo(a) && !es_negativo(b) ==> lugar(a) <= lugar(b),
        lugar(a) == lugar(b) <==> a == b || (magnitud(a) == 0 && magnitud(b) == 0),
{
}

/// Going from bits to their place and back gives the same bits, but for the
/// zero with the sign bit, which comes back without it; going from a place to
/// its bits and back gives the same place.
pub proof fn lema_ida_y_vuelta(bits: u64, clave: i64)
    requires
        i64::MIN < clave,
    ensures
        bits != BIT_DE_SIGNO ==> bits_en(lugar(bits)) == bits,
        bits_en(lugar(BIT_DE_SIGNO)) == 0,
        0 <= bits_en(clave as int) <= u64::MAX,
        lugar(bits_en(clave as int) as u64) == clave,
{
}

} // verus!
