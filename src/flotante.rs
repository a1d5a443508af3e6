use vstd::prelude::*;
use crate::ast::Operador;

verus! {

/// Binary64 floating-point arithmetic on bit patterns. The language's float
/// values are carried through the library as opaque bit patterns; the
/// arithmetic on them, the reading of float literals and their decimal
/// rendering are supplied by the embedding program through this trait.
pub trait Flotante {
    /// Reads a float literal; `None` where the text is no float.
    fn desde_texto(texto: &str) -> Option<u64>;

    /// The float nearest to an integer.
    fn desde_entero(x: i64) -> u64;

    /// Applies `Suma`, `Resta`, `Multiplicacion` or `Division` to two floats.
    fn operar(op: Operador, a: u64, b: u64) -> u64;

    /// The default decimal text of a float.
    fn a_texto(x: u64) -> String;
}

/// A float bit pattern is zero (positive or negative) when all bits but the
/// sign bit are clear.
pub open spec fn es_cero_spec(bits: u64) -> bool {
    bits & 0x7fff_ffff_ffff_ffff == 0
}

pub fn es_cero(bits: u64) -> (r: bool)
    ensures
        r == es_cero_spec(bits),
{
    bits & 0x7fff_ffff_ffff_ffff == 0
}

} // verus!
