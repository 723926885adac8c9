//! Reading the textual input: the fields of a line and the count of
//! obstacles that the header announces.

use vstd::prelude::*;

verus! {

/// Fewest obstacles that an input may announce.
pub const N_MIN: usize = 1;

/// Most obstacles that an input may announce.
pub const N_MAX: usize = 100_000;

/// Why an input was turned down.
#[derive(Clone, Copy, Debug, PartialEq, Eq, Structural)]
pub enum ErrorDeEntrada {
    /// The input could not be read.
    Io,
    /// The input ends before the line that was asked for.
    LineaFaltante,
    /// A line holds fewer fields than it should.
    ValorFaltante,
    /// A field is not a number.
    NumeroInvalido,
    /// A number lies outside the range allowed for it.
    FueraDeRango,
}

impl ErrorDeEntrada {
    /// The words by which the error is reported.
    pub open spec fn texto(&self) -> Seq<char> {
        match self {
            ErrorDeEntrada::Io => "\"IO\""@,
            ErrorDeEntrada::LineaFaltante => "\"Linea faltante\""@,
            ErrorDeEntrada::ValorFaltante => "\"Valor faltante\""@,
            ErrorDeEntrada::NumeroInvalido => "\"Numero invalido\""@,
            ErrorDeEntrada::FueraDeRango => "\"Fuera de rango\""@,
        }
    }

    /// The words by which the error is reported, quotation marks included.
    pub fn mensaje(&self) -> (m: &'static str)
        ensures
            m@ == self.texto(),
    {
        match self {
            ErrorDeEntrada::Io => "\"IO\"",
            ErrorDeEntrada::LineaFaltante => "\"Linea faltante\"",
            ErrorDeEntrada::ValorFaltante => "\"Valor faltante\"",
            ErrorDeEntrada::NumeroInvalido => "\"Numero invalido\"",
            ErrorDeEntrada::FueraDeRango => "\"Fuera de rango\"",
        }
    }
}

/// The characters that separate fields: those that Unicode marks as white
/// space.
pub open spec fn es_espacio(c: char) -> bool {
    let n = c as u32;
    ||| 0x09 <= n <= 0x0D
    ||| n == 0x20
    ||| n == 0x85
    ||| n == 0xA0
    ||| n == 0x1680
    ||| 0x2000 <= n <= 0x200A
    ||| n == 0x2028
    ||| n == 0x2029
    ||| n == 0x202F
    ||| n == 0x205F
    ||| n == 0x3000
}

/// Whether `c` separates fields.
pub fn separa(c: char) -> (b: bool)
    ensures
        b == es_espacio(c),
{
    let n = c as u32;
    (0x09 <= n && n <= 0x0D) || n == 0x20 || n == 0x85 || n == 0xA0 || n == 0x1680 || (0x2000 <= n
        && n <= 0x200A) || n == 0x2028 || n == 0x2029 || n == 0x202F || n == 0x205F || n == 0x3000
}

/// First position from `desde` on that holds no white space, or the length
/// of `s` where only white space is left.
pub open spec fn salta_espacios(s: Seq<char>, desde: int) -> int
    decreases s.len() - desde,
{
    if 0 <= desde < s.len() && es_espacio(s[desde]) {
        salta_espacios(s, desde + 1)
    } else {
        desde
    }
}

/// First position from `desde` on that holds white space, or the length of
/// `s` where none is left.
pub open spec fn salta_campo(s: Seq<char>, desde: int) -> int
    decreases s.len() - desde,
{
    if 0 <= desde < s.len() && !es_espacio(s[desde]) {
        salta_campo(s, desde + 1)
    } else {
        desde
    }
}

/// The fields of the part of `s` that starts at `desde`: the longest runs of
/// characters that are not white space, from left to right.
pub open spec fn campos_desde(s: Seq<char>, desde: int) -> Seq<Seq<char>>
    decreases s.len() - desde,
    when 0 <= desde <= s.len()
    via campos_desde_termina
{
    let inicio = salta_espacios(s, desde);
    if inicio >= s.len() {
        Seq::empty()
    } else {
        let fin = salta_campo(s, inicio);
        seq![s.subrange(inicio, fin)] + campos_desde(s, fin)
    }
}

#[via_fn]
proof fn campos_desde_termina(s: Seq<char>, desde: int) {
    let inicio = salta_espacios(s, desde);
    lema_saltos(s, desde);
    if inicio < s.len() {
        lema_saltos(s, inicio);
    }
}

/// The fields of a line.
pub open spec fn campos(s: Seq<char>) -> Seq<Seq<char>> {
    campos_desde(s, 0)
}

/// Where the two skips stop: within the text, and not before they started;
/// what they pass over is all white space, or free of it; and a skip over a
/// field that starts on a character of the field passes at least that one.
pub proof fn lema_saltos(s: Seq<char>, desde: int)
    requires
        0 <= desde <= s.len(),
    ensures
        desde <= salta_espacios(s, desde) <= s.len(),
        desde <= salta_campo(s, desde) <= s.len(),
        forall|k: int| desde <= k < salta_espacios(s, desde) ==> es_espacio(#[trigger] s[k]),
        forall|k: int| desde <= k < salta_campo(s, desde) ==> !es_espacio(#[trigger] s[k]),
        salta_espacios(s, desde) < s.len() ==> !es_espacio(s[salta_espacios(s, desde)]),
        salta_campo(s, desde) < s.len() ==> es_espacio(s[salta_campo(s, desde)]),
        desde < s.len() && !es_espacio(s[desde]) ==> desde < salta_campo(s, desde),
    decreases s.len() - desde,
{
    if desde < s.len() {
        lema_saltos(s, desde + 1);
    }
}

/// The characters of a text, one by one.
pub fn caracteres(texto: &str) -> (v: Vec<char>)
    ensures
        v@ == texto@,
{
    let mut v: Vec<char> = Vec::new();
    for c in it: texto.chars()
        invariant
            v@ == it.seq().take(it.index() as int),
            it.seq() == texto@,
    {
        v.push(c);
    }
    v
}

/// Skips the white space that starts at `desde`.
fn saltar_espacios(s: &Vec<char>, desde: usize) -> (hasta: usize)
    requires
        desde <= s@.len(),
    ensures
        hasta == salta_espacios(s@, desde as int),
        desde <= hasta <= s@.len(),
{
    let mut i = desde;
    while i < s.len() && separa(s[i])
        invariant
            desde <= i <= s@.len(),
            salta_espacios(s@, i as int) == salta_espacios(s@, desde as int),
        decreases s@.len() - i,
    {
        i += 1;
    }
    i
}

/// Skips the field that starts at `desde`.
fn saltar_campo(s: &Vec<char>, desde: usize) -> (hasta: usize)
    requires
        desde <= s@.len(),
    ensures
        hasta == salta_campo(s@, desde as int),
        desde <= hasta <= s@.len(),
{
    let mut i = desde;
    while i < s.len() && !separa(s[i])
        invariant
            desde <= i <= s@.len(),
            salta_campo(s@, i as int) == salta_campo(s@, desde as int),
        decreases s@.len() - i,
    {
        i += 1;
    }
    i
}

/// The first two fields of a line. What follows them is not looked at.
///
/// A line with fewer than two fields is turned down as
/// [`ErrorDeEntrada::ValorFaltante`].
pub fn dos_campos<'a>(linea: &'a str) -> (r: Result<(&'a str, &'a str), ErrorDeEntrada>)
    ensures
        match r {
            Ok((primero, segundo)) => {
                &&& campos(linea@).len() >= 2
                &&& primero@ == campos(linea@)[0]
                &&& segundo@ == campos(linea@)[1]
            },
            Err(e) => e == ErrorDeEntrada::ValorFaltante && campos(linea@).len() < 2,
        },
{
    let s = caracteres(linea);
    let n = s.len();
    let inicio_1 = saltar_espacios(&s, 0);
    if inicio_1 >= n {
        return Err(ErrorDeEntrada::ValorFaltante);
    }
    let fin_1 = saltar_campo(&s, inicio_1);
    let inicio_2 = saltar_espacios(&s, fin_1);
    proof {
        assert(campos_desde(s@, fin_1 as int).len() < 1 <==> inicio_2 >= n);
    }
    if inicio_2 >= n {
        return Err(ErrorDeEntrada::ValorFaltante);
    }
    let fin_2 = saltar_campo(&s, inicio_2);
    Ok((linea.substring_char(inicio_1, fin_1), linea.substring_char(inicio_2, fin_2)))
}

/// One of the ten decimal digits.
pub open spec fn es_digito(c: char) -> bool {
    0x30 <= c as u32 <= 0x39
}

/// The number that a run of decimal digits writes.
pub open spec fn valor_de_digitos(d: Seq<char>) -> nat
    decreases d.len(),
{
    if d.len() == 0 {
        0
    } else {
        valor_de_digitos(d.drop_last()) * 10 + (d.last() as u32 - 0x30) as nat
    }
}

/// The field without the plus sign that may stand before its digits.
pub open spec fn sin_signo(s: Seq<char>) -> Seq<char> {
    if s.len() > 0 && s[0] == '+' {
        s.drop_first()
    } else {
        s
    }
}

/// The field writes a natural number: one or more decimal digits, with at
/// most a plus sign before them and nothing else.
pub open spec fn es_natural(s: Seq<char>) -> bool {
    let d = sin_signo(s);
    d.len() > 0 && forall|i: int| 0 <= i < d.len() ==> es_digito(#[trigger] d[i])
}

/// The natural number that the field writes.
pub open spec fn valor_natural(s: Seq<char>) -> nat {
    valor_de_digitos(sin_signo(s))
}

/// The digits read so far never write more than all of them do.
pub proof fn lema_valor_de_prefijo(d: Seq<char>, k: int)
    requires
        0 <= k <= d.len(),
    ensures
        valor_de_digitos(d.take(k)) <= valor_de_digitos(d),
    decreases d.len(),
{
    if k == d.len() {
        assert(d.take(k) =~= d);
    } else {
        assert(d.drop_last().take(k) =~= d.take(k));
        lema_valor_de_prefijo(d.drop_last(), k);
    }
}

/// Reads the count of obstacles from its field.
///
/// A field that does not write a natural number, or writes one too large for
/// the machine, is turned down as [`ErrorDeEntrada::NumeroInvalido`]; a
/// number below [`N_MIN`] or above [`N_MAX`] as
/// [`ErrorDeEntrada::FueraDeRango`].
pub fn parsear_cantidad(campo: &str) -> (r: Result<usize, ErrorDeEntrada>)
    ensures
        match r {
            Ok(n) => {
                &&& es_natural(campo@)
                &&& n == valor_natural(campo@)
                &&& N_MIN <= n <= N_MAX
            },
            Err(e) => if !es_natural(campo@) || valor_natural(campo@) > usize::MAX {
                e == ErrorDeEntrada::NumeroInvalido
            } else {
                &&& e == ErrorDeEntrada::FueraDeRango
                &&& !(N_MIN <= valor_natural(campo@) <= N_MAX)
            },
        },
{
    let s = caracteres(campo);
    let n = s.len();
    let inicio: usize = if n > 0 && s[0] == '+' {
        1
    } else {
        0
    };
    let ghost d = sin_signo(s@);
    assert(d =~= s@.subrange(inicio as int, n as int));
    if inicio == n {
        return Err(ErrorDeEntrada::NumeroInvalido);
    }
    let mut valor: usize = 0;
    let mut i: usize = inicio;
    while i < n
        invariant
            inicio <= i <= n,
            inicio < n,
            n == s@.len(),
            s@ == campo@,
            d == sin_signo(campo@),
            d == s@.subrange(inicio as int, n as int),
            forall|k: int| 0 <= k < i - inicio ==> es_digito(#[trigger] d[k]),
            valor == valor_de_digitos(d.take(i - inicio)),
        decreases n - i,
    {
        let c = s[i];
        let codigo = c as u32;
        if codigo < 0x30 || codigo > 0x39 {
            assert(!es_digito(d[i - inicio]));
            return Err(ErrorDeEntrada::NumeroInvalido);
        }
        let digito = (codigo - 0x30) as usize;
        proof {
            let hasta = d.take(i - inicio + 1);
            assert(hasta.drop_last() =~= d.take(i - inicio));
            assert(hasta.last() == c);
            lema_valor_de_prefijo(d, i - inicio + 1);
        }
        if valor > (usize::MAX - digito) / 10 {
            return Err(ErrorDeEntrada::NumeroInvalido);
        }
        valor = valor * 10 + digito;
        i += 1;
    }
    assert(d.take(n - inicio) =~= d);
    if valor < N_MIN || valor > N_MAX {
        return Err(ErrorDeEntrada::FueraDeRango);
    }
    Ok(valor)
}

} // verus!
