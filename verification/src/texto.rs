//! Text as bytes: white space, prefixes, decimal numbers, fields and lines.

use vstd::prelude::*;
use vstd::string::StringSliceAdditionalSpecFns;
use crate::tablas::vista_tabla;

verus! {

/// White space: space, tab, line feed, vertical tab, form feed, carriage
/// return.
pub open spec fn es_blanco(b: u8) -> bool {
    b == 32 || (9 <= b && b <= 13)
}

/// A decimal digit.
pub open spec fn es_digito(b: u8) -> bool {
    48 <= b && b <= 57
}

/// The first place from `i` on that holds no white space; the length if
/// there is none.
pub open spec fn primero_no_blanco(s: Seq<u8>, i: int) -> int
    decreases s.len() - i,
{
    if i < 0 || i >= s.len() || !es_blanco(s[i]) {
        i
    } else {
        primero_no_blanco(s, i + 1)
    }
}

/// The end of the text before `j` once the white space at its end is left
/// out, never below `piso`.
pub open spec fn fin_sin_blancos(s: Seq<u8>, j: int, piso: int) -> int
    decreases j,
{
    if j <= piso || j <= 0 || j > s.len() || !es_blanco(s[j - 1]) {
        j
    } else {
        fin_sin_blancos(s, j - 1, piso)
    }
}

/// The text without the white space at its two ends.
pub open spec fn recortada(s: Seq<u8>) -> Seq<u8> {
    let a = primero_no_blanco(s, 0);
    let b = fin_sin_blancos(s, s.len() as int, a);
    s.subrange(a, b)
}

/// The text starts with the prefix.
pub open spec fn empieza_con(s: Seq<u8>, prefijo: Seq<u8>) -> bool {
    prefijo.len() <= s.len() && s.take(prefijo.len() as int) == prefijo
}

/// The number that the digits write in base ten.
pub open spec fn valor_decimal(d: Seq<u8>) -> int
    decreases d.len(),
{
    if d.len() == 0 {
        0
    } else {
        valor_decimal(d.drop_last()) * 10 + (d.last() - 48)
    }
}

/// Every entry is a decimal digit.
pub open spec fn son_digitos(d: Seq<u8>) -> bool {
    forall|i: int| 0 <= i < d.len() ==> es_digito(#[trigger] d[i])
}

/// The text without a plus sign at its start.
pub open spec fn sin_signo(s: Seq<u8>) -> Seq<u8> {
    if s.len() > 0 && s[0] == 43 {
        s.skip(1)
    } else {
        s
    }
}

/// The unsigned 32-bit number that the text writes: an optional plus sign
/// and at least one decimal digit, nothing else, with a value that fits.
pub open spec fn numero(s: Seq<u8>) -> Option<u32> {
    let d = sin_signo(s);
    if d.len() > 0 && son_digitos(d) && valor_decimal(d) <= u32::MAX {
        Some(valor_decimal(d) as u32)
    } else {
        None
    }
}

/// The pattern stands in the text at place `i`.
pub open spec fn aparece_en(s: Seq<u8>, patron: Seq<u8>, i: int) -> bool {
    0 <= i && i + patron.len() <= s.len() && s.subrange(i, i + patron.len()) == patron
}

/// The first place from `desde` on at which the pattern stands in the text.
pub open spec fn primera_aparicion(s: Seq<u8>, patron: Seq<u8>, desde: int) -> Option<int>
    decreases s.len() - desde,
{
    if desde < 0 || desde + patron.len() > s.len() {
        None
    } else if aparece_en(s, patron, desde) {
        Some(desde)
    } else if desde < s.len() {
        primera_aparicion(s, patron, desde + 1)
    } else {
        None
    }
}

/// A piece that was being gathered, as a list: empty if the piece is.
pub open spec fn pieza(actual: Seq<u8>) -> Seq<Seq<u8>> {
    if actual.len() > 0 {
        seq![actual]
    } else {
        Seq::empty()
    }
}

/// The fields of the text from place `i` on, `actual` being the field
/// gathered so far: the runs of bytes between white space.
pub open spec fn campos_desde(s: Seq<u8>, i: int, actual: Seq<u8>) -> Seq<Seq<u8>>
    decreases s.len() - i,
{
    if i < 0 || i >= s.len() {
        pieza(actual)
    } else if es_blanco(s[i]) {
        pieza(actual) + campos_desde(s, i + 1, Seq::empty())
    } else {
        campos_desde(s, i + 1, actual.push(s[i]))
    }
}

/// The fields of the text: its runs of bytes between white space.
pub open spec fn campos(s: Seq<u8>) -> Seq<Seq<u8>> {
    campos_desde(s, 0, Seq::empty())
}

/// The lines of the text from place `i` on, `actual` being the line
/// gathered so far: the text is cut at every line feed.
pub open spec fn lineas_desde(s: Seq<u8>, i: int, actual: Seq<u8>) -> Seq<Seq<u8>>
    decreases s.len() - i,
{
    if i < 0 || i >= s.len() {
        seq![actual]
    } else if s[i] == 10 {
        seq![actual] + lineas_desde(s, i + 1, Seq::empty())
    } else {
        lineas_desde(s, i + 1, actual.push(s[i]))
    }
}

/// The lines of the text: what stands between its line feeds.
pub open spec fn lineas(s: Seq<u8>) -> Seq<Seq<u8>> {
    lineas_desde(s, 0, Seq::empty())
}

/// A keyword of the format, as bytes.
pub open spec fn clave(s: &str) -> Seq<u8> {
    s.spec_bytes()
}

/// Every field writes a number.
pub open spec fn son_numeros(cs: Seq<Seq<u8>>) -> bool {
    forall|k: int| 0 <= k < cs.len() ==> numero(#[trigger] cs[k]) is Some
}

/// The numbers that the fields write.
pub open spec fn numeros(cs: Seq<Seq<u8>>) -> Seq<u32> {
    Seq::new(cs.len(), |k: int| numero(cs[k])->0)
}

/// Whether the byte is white space.
pub fn blanco(b: u8) -> (r: bool)
    ensures
        r == es_blanco(b),
{
    b == 32 || (9 <= b && b <= 13)
}

/// A copy of the bytes from place `a` up to place `b`.
pub fn copiar_tramo(s: &[u8], a: usize, b: usize) -> (r: Vec<u8>)
    requires
        a <= b <= s@.len(),
    ensures
        r@ == s@.subrange(a as int, b as int),
{
    let mut r: Vec<u8> = Vec::new();
    let mut i: usize = a;
    while i < b
        invariant
            a <= i <= b,
            b <= s@.len(),
            r@ == s@.subrange(a as int, i as int),
        decreases b - i,
    {
        r.push(s[i]);
        assert(r@ =~= s@.subrange(a as int, i as int + 1));
        i += 1;
    }
    r
}

/// The text without the white space at its two ends.
pub fn recortar(s: &[u8]) -> (r: Vec<u8>)
    ensures
        r@ == recortada(s@),
{
    let n: usize = s.len();
    let mut a: usize = 0;
    while a < n && blanco(s[a])
        invariant
            n == s@.len(),
            a <= n,
            primero_no_blanco(s@, 0) == primero_no_blanco(s@, a as int),
        decreases n - a,
    {
        a += 1;
    }
    let mut b: usize = n;
    while b > a && blanco(s[b - 1])
        invariant
            n == s@.len(),
            a <= b <= n,
            fin_sin_blancos(s@, n as int, a as int) == fin_sin_blancos(s@, b as int, a as int),
        decreases b,
    {
        b -= 1;
    }
    copiar_tramo(s, a, b)
}

/// Whether the text starts with the prefix.
pub fn empieza(s: &[u8], prefijo: &[u8]) -> (r: bool)
    ensures
        r == empieza_con(s@, prefijo@),
{
    let m: usize = prefijo.len();
    if m > s.len() {
        return false;
    }
    let mut i: usize = 0;
    while i < m
        invariant
            m == prefijo@.len(),
            m <= s@.len(),
            i <= m,
            forall|k: int| 0 <= k < i ==> s@[k] == prefijo@[k],
        decreases m - i,
    {
        if s[i] != prefijo[i] {
            assert(s@.take(m as int)[i as int] != prefijo@[i as int]);
            return false;
        }
        i += 1;
    }
    assert(s@.take(m as int) =~= prefijo@);
    true
}

/// Whether the two texts are the same.
pub fn iguales(s: &[u8], t: &[u8]) -> (r: bool)
    ensures
        r == (s@ == t@),
{
    if s.len() != t.len() {
        return false;
    }
    let r: bool = empieza(s, t);
    assert(s@.take(t@.len() as int) =~= s@);
    r
}

/// The value of digits is not negative.
proof fn lema_valor_no_negativo(d: Seq<u8>)
    requires
        son_digitos(d),
    ensures
        0 <= valor_decimal(d),
    decreases d.len(),
{
    if d.len() > 0 {
        assert forall|i: int| 0 <= i < d.drop_last().len() implies es_digito(
            #[trigger] d.drop_last()[i],
        ) by {
            assert(d.drop_last()[i] == d[i]);
        }
        lema_valor_no_negativo(d.drop_last());
        assert(es_digito(d[d.len() - 1]));
    }
}

/// The first digits of a number have a value that is not above the value of
/// the number.
proof fn lema_valor_crece(d: Seq<u8>, k: int)
    requires
        son_digitos(d),
        0 <= k <= d.len(),
    ensures
        0 <= valor_decimal(d.take(k)) <= valor_decimal(d),
    decreases d.len(),
{
    if k == d.len() {
        assert(d.take(k) =~= d);
        lema_valor_no_negativo(d);
    } else {
        let resto = d.drop_last();
        assert forall|i: int| 0 <= i < resto.len() implies es_digito(#[trigger] resto[i]) by {
            assert(resto[i] == d[i]);
        }
        lema_valor_crece(resto, k);
        assert(resto.take(k) =~= d.take(k));
        lema_valor_no_negativo(resto);
        assert(es_digito(d[d.len() - 1]));
    }
}

/// The unsigned 32-bit number that the text writes, if it writes one.
pub fn leer_numero(s: &[u8]) -> (r: Option<u32>)
    ensures
        r == numero(s@),
{
    let n: usize = s.len();
    let inicio: usize = if n > 0 && s[0] == 43 {
        1
    } else {
        0
    };
    let ghost d = sin_signo(s@);
    assert(d =~= s@.skip(inicio as int));
    if inicio == n {
        return None;
    }
    let mut valor: u64 = 0;
    let mut i: usize = inicio;
    assert(d.take(0) =~= Seq::<u8>::empty());
    while i < n
        invariant
            n == s@.len(),
            inicio <= i <= n,
            d == s@.skip(inicio as int),
            d == sin_signo(s@),
            d.len() == n - inicio,
            d.len() > 0,
            son_digitos(d.take(i - inicio)),
            valor == valor_decimal(d.take(i - inicio)),
            valor <= u32::MAX,
        decreases n - i,
    {
        let b: u8 = s[i];
        let ghost k = i - inicio;
        proof {
            assert(d[k] == b);
            assert(d.take(k + 1).drop_last() =~= d.take(k));
        }
        if b < 48 || b > 57 {
            assert(!es_digito(d[k]));
            return None;
        }
        valor = valor * 10 + (b - 48) as u64;
        proof {
            assert forall|a: int| 0 <= a < k + 1 implies es_digito(#[trigger] d.take(k + 1)[a]) by {
                if a < k {
                    assert(d.take(k)[a] == d.take(k + 1)[a]);
                }
            }
        }
        if valor > u32::MAX as u64 {
            proof {
                if son_digitos(d) {
                    lema_valor_crece(d, k + 1);
                }
            }
            return None;
        }
        i += 1;
    }
    assert(d.take(n - inicio) =~= d);
    Some(valor as u32)
}

/// Whether the pattern stands in the text at place `i`.
pub fn coincide_en(s: &[u8], patron: &[u8], i: usize) -> (r: bool)
    requires
        i + patron@.len() <= s@.len(),
    ensures
        r == aparece_en(s@, patron@, i as int),
{
    let m: usize = patron.len();
    let n: usize = s.len();
    let mut k: usize = 0;
    while k < m
        invariant
            m == patron@.len(),
            n == s@.len(),
            i + m <= n,
            k <= m,
            forall|a: int| 0 <= a < k ==> s@[i + a] == patron@[a],
        decreases m - k,
    {
        if s[i + k] != patron[k] {
            assert(s@.subrange(i as int, i + m)[k as int] != patron@[k as int]);
            return false;
        }
        k += 1;
    }
    assert(s@.subrange(i as int, i + m) =~= patron@);
    true
}

/// The first place at which the pattern stands in the text, if it does.
pub fn buscar(s: &[u8], patron: &[u8]) -> (r: Option<usize>)
    ensures
        r is Some <==> primera_aparicion(s@, patron@, 0) is Some,
        r is Some ==> r->0 == primera_aparicion(s@, patron@, 0)->0,
        r is Some ==> r->0 + patron@.len() <= s@.len(),
{
    let n: usize = s.len();
    let m: usize = patron.len();
    if m > n {
        return None;
    }
    let ultimo: usize = n - m;
    let mut i: usize = 0;
    loop
        invariant
            n == s@.len(),
            m == patron@.len(),
            ultimo == n - m,
            i <= ultimo,
            primera_aparicion(s@, patron@, 0) == primera_aparicion(s@, patron@, i as int),
        decreases ultimo - i,
    {
        if coincide_en(s, patron, i) {
            return Some(i);
        }
        if i == ultimo {
            assert(primera_aparicion(s@, patron@, i + 1) is None);
            return None;
        }
        i += 1;
    }
}

/// The fields of the text: its runs of bytes between white space.
pub fn partir_campos(s: &[u8]) -> (r: Vec<Vec<u8>>)
    ensures
        vista_tabla(r@) == campos(s@),
{
    let n: usize = s.len();
    let mut r: Vec<Vec<u8>> = Vec::new();
    let mut actual: Vec<u8> = Vec::new();
    let ghost mut hechos: Seq<Seq<u8>> = Seq::empty();
    let mut i: usize = 0;
    assert(hechos + campos_desde(s@, 0, actual@) =~= campos(s@));
    while i < n
        invariant
            n == s@.len(),
            i <= n,
            r@.len() == hechos.len(),
            forall|k: int| 0 <= k < r@.len() ==> (#[trigger] r@[k])@ == hechos[k],
            campos(s@) == hechos + campos_desde(s@, i as int, actual@),
        decreases n - i,
    {
        let b: u8 = s[i];
        if blanco(b) {
            if actual.len() > 0 {
                proof {
                    assert(hechos.push(actual@) + campos_desde(s@, i + 1, Seq::empty()) =~= hechos
                        + campos_desde(s@, i as int, actual@));
                    hechos = hechos.push(actual@);
                }
                r.push(actual);
                actual = Vec::new();
            } else {
                assert(hechos + campos_desde(s@, i + 1, Seq::empty()) =~= hechos + campos_desde(
                    s@,
                    i as int,
                    actual@,
                ));
                assert(actual@ =~= Seq::<u8>::empty());
            }
        } else {
            actual.push(b);
        }
        i += 1;
    }
    if actual.len() > 0 {
        proof {
            assert(hechos.push(actual@) =~= hechos + campos_desde(s@, n as int, actual@));
            hechos = hechos.push(actual@);
        }
        r.push(actual);
    } else {
        assert(hechos =~= hechos + campos_desde(s@, n as int, actual@));
    }
    assert(vista_tabla(r@) =~= hechos);
    r
}

/// The lines of the text: what stands between its line feeds.
pub fn partir_lineas(s: &[u8]) -> (r: Vec<Vec<u8>>)
    ensures
        vista_tabla(r@) == lineas(s@),
{
    let n: usize = s.len();
    let mut r: Vec<Vec<u8>> = Vec::new();
    let mut actual: Vec<u8> = Vec::new();
    let ghost mut hechas: Seq<Seq<u8>> = Seq::empty();
    let mut i: usize = 0;
    assert(hechas + lineas_desde(s@, 0, actual@) =~= lineas(s@));
    while i < n
        invariant
            n == s@.len(),
            i <= n,
            r@.len() == hechas.len(),
            forall|k: int| 0 <= k < r@.len() ==> (#[trigger] r@[k])@ == hechas[k],
            lineas(s@) == hechas + lineas_desde(s@, i as int, actual@),
        decreases n - i,
    {
        let b: u8 = s[i];
        if b == 10 {
            proof {
                assert(hechas.push(actual@) + lineas_desde(s@, i + 1, Seq::empty()) =~= hechas
                    + lineas_desde(s@, i as int, actual@));
                hechas = hechas.push(actual@);
            }
            r.push(actual);
            actual = Vec::new();
        } else {
            actual.push(b);
        }
        i += 1;
    }
    proof {
        assert(hechas.push(actual@) =~= hechas + lineas_desde(s@, n as int, actual@));
        hechas = hechas.push(actual@);
    }
    r.push(actual);
    assert(vista_tabla(r@) =~= hechas);
    r
}

} // verus!
