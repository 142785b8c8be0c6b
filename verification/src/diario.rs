//! Writing to the system journal, under the application's own name.
//!
//! The native protocol of `systemd-journald` is a datagram to a unix socket with
//! `FIELD=value` pairs. This module builds that datagram; sending it is the
//! caller's business.
use vstd::prelude::*;
use vstd::utf8::*;
use vstd::string::*;

use crate::decimal::{decimal, en_decimal};
use crate::protocolo::potencia_256;
use vstd::arithmetic::div_mod::lemma_div_denominator;
use crate::codificacion::{iguales, lema_utf8_concat, agregar, contiene_byte, lema_ascii_en_utf8, IGUAL, SALTO};

verus! {

broadcast use vstd::seq_lib::group_seq_properties;

/// How far a message is cut.
///
/// A datagram is not split: if it does not fit, it is lost whole. A sixteen-thousand
/// character log line nobody reads, so it is cut and the cut is said in the text.
pub const LIMITE_MENSAJE: usize = 16 * 1024;

/// What ends a cut message, so that it shows something is missing.
pub const MARCA_DE_RECORTE: &'static str = "… (recortado)";

/// The largest character boundary of `b` at or below `i`; 0 is always one.
pub open spec fn ultimo_borde(b: Seq<u8>, i: int) -> int
    decreases i,
{
    if i <= 0 {
        0
    } else if is_char_boundary(b, i) {
        i
    } else {
        ultimo_borde(b, i - 1)
    }
}

/// The bytes left for the text of a cut message once the mark is counted.
pub open spec fn sitio(limite: int) -> int {
    let marca: int = encode_utf8(MARCA_DE_RECORTE@).len() as int;
    if limite >= marca {
        limite - marca
    } else {
        0
    }
}

/// A message cut to `limite` bytes: a message that fits is left as it is; one that
/// does not keeps its longest start that ends on a character boundary and leaves room
/// for the mark, followed by the mark.
pub open spec fn recortado(mensaje: Seq<char>, limite: int) -> Seq<char> {
    let b = encode_utf8(mensaje);
    if b.len() <= limite {
        mensaje
    } else {
        decode_utf8(b.take(ultimo_borde(b, sitio(limite)))) + MARCA_DE_RECORTE@
    }
}

/// The last boundary at or below `i` is a character boundary, between 0 and `i`.
pub proof fn lema_ultimo_borde(b: Seq<u8>, i: int)
    requires
        valid_utf8(b),
        i <= b.len(),
    ensures
        0 <= ultimo_borde(b, i),
        ultimo_borde(b, i) <= i || i <= 0,
        is_char_boundary(b, ultimo_borde(b, i)),
    decreases i,
{
    if i > 0 && !is_char_boundary(b, i) {
        lema_ultimo_borde(b, i - 1);
    }
}

/// A cut message is a start of the message, cut between two characters, followed by
/// the mark; its start takes no more bytes than the room left beside the mark.
pub proof fn ley_recorte_no_parte_caracteres(mensaje: Seq<char>, limite: int)
    requires
        encode_utf8(mensaje).len() > limite,
    ensures
        exists|k: int|
            0 <= k <= mensaje.len() && recortado(mensaje, limite) == mensaje.take(k)
                + MARCA_DE_RECORTE@ && encode_utf8(mensaje.take(k)).len() <= sitio(limite),
{
    broadcast use vstd::utf8::group_utf8_lib;

    let b = encode_utf8(mensaje);
    let c: int = ultimo_borde(b, sitio(limite));
    lema_ultimo_borde(b, sitio(limite));
    decode_utf8_split(b, c);
    valid_utf8_split(b, c);
    assert(b.subrange(0, c) == b.take(c));
    let p = decode_utf8(b.take(c));
    let q = decode_utf8(b.subrange(c, b.len() as int));
    assert(mensaje == p + q);
    let k: int = p.len() as int;
    assert(mensaje.take(k) =~= p);
    assert(encode_utf8(p) == b.take(c));
}

/// No boundary lies between the last boundary at or below `i` and `i`.
pub proof fn lema_ultimo_borde_maximo(b: Seq<u8>, i: int)
    ensures
        forall|j: int| ultimo_borde(b, i) < j <= i ==> !is_char_boundary(b, j),
    decreases i,
{
    if i > 0 && !is_char_boundary(b, i) {
        lema_ultimo_borde_maximo(b, i - 1);
    }
}

/// The cut mark takes fifteen bytes: a three-byte ellipsis and twelve ASCII bytes.
pub proof fn lema_marca_15()
    ensures
        MARCA_DE_RECORTE@ == "… (recortado)"@,
        encode_utf8(MARCA_DE_RECORTE@).len() == 15,
{
    reveal_strlit("… (recortado)");
    reveal_with_fuel(encode_utf8, 14);
}

/// A message longer than the limit keeps its longest start that fits beside the mark:
/// the start ends between two characters, takes at most `limite - 15` bytes, and no
/// longer start ending between two characters takes at most `limite - 15` bytes; the
/// mark follows it.
pub proof fn ley_recorte_maximo(mensaje: Seq<char>, limite: int)
    requires
        encode_utf8(mensaje).len() > limite,
        limite >= 15,
    ensures
        exists|k: int|
            0 <= k <= mensaje.len() && recortado(mensaje, limite) == mensaje.take(k)
                + MARCA_DE_RECORTE@ && encode_utf8(mensaje.take(k)).len() <= limite - 15
                && is_char_boundary(encode_utf8(mensaje), encode_utf8(mensaje.take(k)).len() as int)
                && forall|j: int|
                encode_utf8(mensaje.take(k)).len() < j <= limite - 15 ==> !is_char_boundary(
                    encode_utf8(mensaje),
                    j,
                ),
{
    broadcast use vstd::utf8::group_utf8_lib;

    lema_marca_15();
    let b = encode_utf8(mensaje);
    assert(sitio(limite) == limite - 15);
    let c: int = ultimo_borde(b, limite - 15);
    lema_ultimo_borde(b, limite - 15);
    lema_ultimo_borde_maximo(b, limite - 15);
    decode_utf8_split(b, c);
    valid_utf8_split(b, c);
    assert(b.subrange(0, c) == b.take(c));
    let p = decode_utf8(b.take(c));
    let q = decode_utf8(b.subrange(c, b.len() as int));
    assert(mensaje == p + q);
    let k: int = p.len() as int;
    assert(mensaje.take(k) =~= p);
    assert(encode_utf8(p) == b.take(c));
    assert(encode_utf8(mensaje.take(k)).len() == c);
}

/// A cut message takes no more bytes than the limit, or than the mark alone where the
/// limit is smaller than the mark.
pub proof fn ley_recorte_cabe(mensaje: Seq<char>, limite: int)
    ensures
        encode_utf8(recortado(mensaje, limite)).len() <= limite || (encode_utf8(
            recortado(mensaje, limite),
        ).len() == encode_utf8(MARCA_DE_RECORTE@).len() && limite < encode_utf8(
            MARCA_DE_RECORTE@,
        ).len()),
{
    broadcast use vstd::utf8::group_utf8_lib;

    let b = encode_utf8(mensaje);
    if b.len() > limite {
        let c: int = ultimo_borde(b, sitio(limite));
        lema_ultimo_borde(b, sitio(limite));
        valid_utf8_split(b, c);
        assert(b.subrange(0, c) == b.take(c));
        let p = decode_utf8(b.take(c));
        lema_utf8_concat(p, MARCA_DE_RECORTE@);
        assert(encode_utf8(p) == b.take(c));
    }
}

/// Cuts a message without splitting a character.
pub fn recortar(mensaje: &str, limite: usize) -> (r: String)
    ensures
        r@ == recortado(mensaje@, limite as int),
        encode_utf8(mensaje@).len() <= limite ==> r@ == mensaje@,
        encode_utf8(mensaje@).len() > limite && limite >= 15 ==> exists|k: int|
            0 <= k <= mensaje@.len() && r@ == mensaje@.take(k) + "… (recortado)"@
                && encode_utf8(mensaje@.take(k)).len() <= limite - 15 && is_char_boundary(
                encode_utf8(mensaje@),
                encode_utf8(mensaje@.take(k)).len() as int,
            ) && forall|j: int|
                encode_utf8(mensaje@.take(k)).len() < j <= limite - 15 ==> !is_char_boundary(
                    encode_utf8(mensaje@),
                    j,
                ),
{
    proof {
        lema_marca_15();
        if encode_utf8(mensaje@).len() > limite && limite >= 15 {
            ley_recorte_maximo(mensaje@, limite as int);
        }
    }
    broadcast use vstd::utf8::group_utf8_lib;

    if mensaje.as_bytes().len() <= limite {
        return String::from_str(mensaje);
    }
    let sitio_libre: usize = limite.saturating_sub(MARCA_DE_RECORTE.as_bytes().len());
    let ghost b = encode_utf8(mensaje@);
    assert(sitio_libre == sitio(limite as int));
    let mut corte: usize = sitio_libre;
    while corte > 0 && !mensaje.is_char_boundary(corte)
        invariant
            b == encode_utf8(mensaje@),
            corte <= sitio_libre,
            ultimo_borde(b, sitio_libre as int) == ultimo_borde(b, corte as int),
        decreases corte,
    {
        corte = corte - 1;
    }
    assert(ultimo_borde(b, corte as int) == corte);
    assert(is_char_boundary(b, corte as int));
    let (cabeza, _) = mensaje.split_at(corte);
    assert(cabeza@ == decode_utf8(b.take(corte as int))) by {
        encode_utf8_decode_utf8(cabeza@);
        assert(b.subrange(0, corte as int) == b.take(corte as int));
    }
    let mut r = String::from_str(cabeza);
    r.append(MARCA_DE_RECORTE);
    r
}

/// Where a message came from: the web interface or the application core, which are
/// fixed in different files.
#[derive(Debug, Clone, Copy, PartialEq, Eq, Structural)]
pub enum Capa {
    Interfaz,
    Nucleo,
}

impl Capa {
    /// The text of the `VSK_CAPA` field for this layer.
    pub open spec fn texto(self) -> Seq<char> {
        match self {
            Capa::Interfaz => "interfaz"@,
            Capa::Nucleo => "nucleo"@,
        }
    }

    pub fn como_texto(self) -> (r: &'static str)
        ensures
            r@ == self.texto(),
            self == Capa::Interfaz ==> r@ == "interfaz"@,
            self == Capa::Nucleo ==> r@ == "nucleo"@,
    {
        match self {
            Capa::Interfaz => "interfaz",
            Capa::Nucleo => "nucleo",
        }
    }
}

/// A syslog level clamped to the range the journal knows, 0 to 7.
pub open spec fn nivel_acotado(nivel: u8) -> u8 {
    if nivel <= 7 {
        nivel
    } else {
        7
    }
}

/// The level, clamped instead of refused: an invented level is no reason to lose the
/// message.
pub fn nivel_valido(nivel: u8) -> (r: u8)
    ensures
        r == nivel_acotado(nivel),
        nivel <= 7 ==> r == nivel,
        nivel > 7 ==> r == 7,
{
    if nivel <= 7 {
        nivel
    } else {
        7
    }
}

/// A level inside the syslog range is kept as it is; any higher level becomes 7, debug.
pub proof fn ley_nivel_en_rango(nivel: u8)
    ensures
        nivel <= 7 ==> nivel_acotado(nivel) == nivel,
        nivel > 7 ==> nivel_acotado(nivel) == 7,
{
}

/// A byte that may stand in a field name: an upper-case ASCII letter, a digit or `_`.
pub open spec fn byte_de_campo(b: u8) -> bool {
    (0x41 <= b <= 0x5A) || (0x30 <= b <= 0x39) || b == 0x5F
}

/// A field name that the journal accepts and that the application may write: 1 to 64
/// bytes of upper-case letters, digits and `_`, not starting with `_` (journald's own
/// trusted fields) nor with a digit.
pub open spec fn nombre_valido(b: Seq<u8>) -> bool {
    &&& 0 < b.len() <= 64
    &&& b[0] != 0x5F
    &&& !(0x30 <= b[0] <= 0x39)
    &&& forall|i: int| 0 <= i < b.len() ==> byte_de_campo(#[trigger] b[i])
}

/// The names the journal takes from this library are exactly those of 1 to 64 bytes,
/// each an upper-case ASCII letter (0x41-0x5A), a digit (0x30-0x39) or `_` (0x5F), not
/// starting with `_` nor with a digit.
pub proof fn ley_nombre_de_campo(b: Seq<u8>)
    ensures
        nombre_valido(b) <==> {
            &&& 1 <= b.len() <= 64
            &&& b[0] != 0x5F
            &&& !(0x30 <= b[0] <= 0x39)
            &&& forall|i: int|
                0 <= i < b.len() ==> (0x41 <= #[trigger] b[i] <= 0x5A) || (0x30 <= b[i] <= 0x39)
                    || b[i] == 0x5F
        },
{
    if nombre_valido(b) {
        assert forall|i: int| 0 <= i < b.len() implies (0x41 <= #[trigger] b[i] <= 0x5A) || (
        0x30 <= b[i] <= 0x39) || b[i] == 0x5F by {
            assert(byte_de_campo(b[i]));
        }
    }
}

pub fn nombre_de_campo_valido(nombre: &str) -> (r: bool)
    ensures
        r == nombre_valido(encode_utf8(nombre@)),
        r <==> ({
            let b = encode_utf8(nombre@);
            &&& 1 <= b.len() <= 64
            &&& b[0] != 0x5F
            &&& !(0x30 <= b[0] <= 0x39)
            &&& forall|i: int|
                0 <= i < b.len() ==> (0x41 <= #[trigger] b[i] <= 0x5A) || (0x30 <= b[i] <= 0x39)
                    || b[i] == 0x5F
        }),
{
    let b = nombre.as_bytes();
    if b.len() == 0 || b.len() > 64 {
        return false;
    }
    if b[0] == 0x5F || (0x30 <= b[0] && b[0] <= 0x39) {
        return false;
    }
    let mut i: usize = 0;
    while i < b.len()
        invariant
            b@ == encode_utf8(nombre@),
            0 < b@.len() <= 64,
            b@[0] != 0x5F,
            !(0x30 <= b@[0] <= 0x39),
            i <= b@.len(),
            forall|j: int| 0 <= j < i ==> byte_de_campo(#[trigger] b@[j]),
        decreases b@.len() - i,
    {
        let c: u8 = b[i];
        if !((0x41 <= c && c <= 0x5A) || (0x30 <= c && c <= 0x39) || c == 0x5F) {
            assert(!byte_de_campo(b@[i as int]));
            return false;
        }
        i = i + 1;
    }
    true
}

/// `n` written in `k` bytes, least significant first.
pub open spec fn bytes_le(n: nat, k: nat) -> Seq<u8>
    decreases k,
{
    if k == 0 {
        Seq::empty()
    } else {
        seq![(n % 256) as u8] + bytes_le(n / 256, (k - 1) as nat)
    }
}

/// The number that little-endian bytes stand for.
pub open spec fn valor_le(b: Seq<u8>) -> nat
    decreases b.len(),
{
    if b.len() == 0 {
        0
    } else {
        b[0] as nat + 256 * valor_le(b.drop_first())
    }
}

/// The eight length bytes of the long form: a 64-bit little-endian number.
pub open spec fn largo_le(n: nat) -> Seq<u8> {
    bytes_le(n, 8)
}

/// 256 to any power is positive.
pub proof fn lema_potencia_positiva(k: nat)
    ensures
        potencia_256(k) > 0,
    decreases k,
{
    if k > 0 {
        lema_potencia_positiva((k - 1) as nat);
    }
}

/// Byte `i` of the little-endian writing of `x` is `x / 256^i` modulo 256.
pub proof fn lema_byte_le(x: nat, k: nat, i: int)
    requires
        0 <= i < k,
    ensures
        bytes_le(x, k).len() == k,
        bytes_le(x, k)[i] as int == (x / potencia_256(i as nat)) % 256,
    decreases k,
{
    let resto = bytes_le(x / 256, (k - 1) as nat);
    assert(bytes_le(x, k) == seq![(x % 256) as u8] + resto);
    if k > 1 {
        lema_byte_le(x / 256, (k - 1) as nat, 0);
    } else {
        assert(resto =~= Seq::<u8>::empty());
    }
    if i == 0 {
        assert(potencia_256(0) == 1);
        assert(bytes_le(x, k)[0] == (x % 256) as u8);
    } else {
        lema_byte_le(x / 256, (k - 1) as nat, i - 1);
        lema_potencia_positiva((i - 1) as nat);
        lemma_div_denominator(x as int, 256, potencia_256((i - 1) as nat) as int);
        assert(potencia_256(i as nat) == 256 * potencia_256((i - 1) as nat));
        assert(bytes_le(x, k)[i] == resto[i - 1]);
    }
}

/// The short form of a field: `NAME=value\n`.
pub open spec fn forma_corta(nombre: Seq<u8>, valor: Seq<u8>) -> Seq<u8> {
    nombre + seq![IGUAL] + valor + seq![SALTO]
}

/// The long form of a field: the name, a line feed, the value's length in eight
/// little-endian bytes, the raw value and a line feed. The length decides where the
/// value ends; its content is not read.
pub open spec fn forma_larga(nombre: Seq<u8>, valor: Seq<u8>) -> Seq<u8> {
    nombre + seq![SALTO] + largo_le(valor.len()) + valor + seq![SALTO]
}

/// A field as the protocol carries it: a value with a line feed in it goes in the long
/// form, where it cannot make up fields; any other value in the short form.
pub open spec fn campo_codificado(nombre: Seq<char>, valor: Seq<char>) -> Seq<u8> {
    if valor.contains('\n') {
        forma_larga(encode_utf8(nombre), encode_utf8(valor))
    } else {
        forma_corta(encode_utf8(nombre), encode_utf8(valor))
    }
}

/// The eight little-endian bytes of `n`.
fn bytes_del_largo(n: u64) -> (r: Vec<u8>)
    ensures
        r@ == largo_le(n as nat),
{
    let mut r: Vec<u8> = Vec::new();
    let mut m: u64 = n;
    let mut k: usize = 0;
    while k < 8
        invariant
            k <= 8,
            r@ + bytes_le(m as nat, (8 - k) as nat) == bytes_le(n as nat, 8),
        decreases 8 - k,
    {
        let ghost antes = r@;
        r.push((m % 256) as u8);
        assert(bytes_le(m as nat, (8 - k) as nat) == seq![(m % 256) as u8] + bytes_le(
            (m / 256) as nat,
            (8 - k - 1) as nat,
        ));
        assert(antes + bytes_le(m as nat, (8 - k) as nat) =~= r@ + bytes_le(
            (m / 256) as nat,
            (8 - k - 1) as nat,
        ));
        m = m / 256;
        k = k + 1;
    }
    assert(bytes_le(m as nat, 0) =~= Seq::<u8>::empty());
    assert(r@ + bytes_le(m as nat, 0) =~= r@);
    r
}

/// Encodes a name/value pair in the journal's native protocol.
///
/// A value with a line feed in the short form could make up fields (`\nPRIORITY=0\n`
/// would turn a notice into an emergency), so such a value goes in the long form.
pub fn codificar_campo(nombre: &str, valor: &str) -> (salida: Vec<u8>)
    ensures
        salida@ == campo_codificado(nombre@, valor@),
        !valor@.contains('\n') ==> salida@ == encode_utf8(nombre@) + seq![0x3Du8] + encode_utf8(
            valor@,
        ) + seq![0x0Au8],
        valor@.contains('\n') ==> ({
            let n = encode_utf8(nombre@);
            let v = encode_utf8(valor@);
            &&& salida@.len() == n.len() + 8 + v.len() + 2
            &&& salida@.take(n.len() as int) == n
            &&& salida@[n.len() as int] == 0x0Au8
            &&& forall|i: int|
                0 <= i < 8 ==> #[trigger] salida@[n.len() + 1 + i] as int == (v.len()
                    / potencia_256(i as nat)) % 256
            &&& salida@.subrange(n.len() + 9int, n.len() + 9int + v.len()) == v
            &&& salida@[salida@.len() - 1] == 0x0Au8
        }),
{
    let n = nombre.as_bytes();
    let v = valor.as_bytes();
    let mut salida: Vec<u8> = Vec::new();
    let tiene_salto: bool = contiene_byte(v, SALTO);
    proof {
        lema_ascii_en_utf8(valor@, '\n');
    }
    agregar(&mut salida, n);
    if tiene_salto {
        salida.push(SALTO);
        let largo = bytes_del_largo(v.len() as u64);
        agregar(&mut salida, largo.as_slice());
        agregar(&mut salida, v);
        salida.push(SALTO);
        assert(salida@ =~= forma_larga(encode_utf8(nombre@), encode_utf8(valor@)));
        proof {
            let nb = encode_utf8(nombre@);
            let vb = encode_utf8(valor@);
            let l = largo_le(vb.len());
            assert(l.len() == 8) by {
                lema_byte_le(vb.len(), 8, 0);
            }
            assert(salida@.take(nb.len() as int) =~= nb);
            assert(salida@.subrange(nb.len() + 9int, nb.len() + 9int + vb.len()) =~= vb);
            assert forall|i: int| 0 <= i < 8 implies #[trigger] salida@[nb.len() + 1 + i] as int
                == (vb.len() / potencia_256(i as nat)) % 256 by {
                lema_byte_le(vb.len(), 8, i);
                assert(salida@[nb.len() + 1 + i] == l[i]);
            }
        }
    } else {
        salida.push(IGUAL);
        agregar(&mut salida, v);
        salida.push(SALTO);
        assert(salida@ =~= forma_corta(encode_utf8(nombre@), encode_utf8(valor@)));
    }
    salida
}

/// The name and the text of each field, as characters.
pub open spec fn vista_campos(campos: Seq<(&str, String)>) -> Seq<(Seq<char>, Seq<char>)> {
    campos.map_values(|c: (&str, String)| (c.0@, c.1@))
}

/// The datagram for a list of fields: each field with a valid name, encoded, in order;
/// a field with an invalid name is left out and the others stay.
pub open spec fn datagrama(campos: Seq<(Seq<char>, Seq<char>)>) -> Seq<u8>
    decreases campos.len(),
{
    if campos.len() == 0 {
        Seq::empty()
    } else {
        let resto = datagrama(campos.drop_last());
        let (nombre, valor) = campos.last();
        if nombre_valido(encode_utf8(nombre)) {
            resto + campo_codificado(nombre, valor)
        } else {
            resto
        }
    }
}

/// Builds the whole datagram.
///
/// A field with an invalid name is dropped silently instead of failing: the message is
/// worth more than the extra field.
pub fn armar(campos: &[(&str, String)]) -> (salida: Vec<u8>)
    ensures
        salida@ == datagrama(vista_campos(campos@)),
{
    let mut salida: Vec<u8> = Vec::new();
    let mut i: usize = 0;
    while i < campos.len()
        invariant
            i <= campos@.len(),
            salida@ == datagrama(vista_campos(campos@).take(i as int)),
        decreases campos@.len() - i,
    {
        let nombre: &str = campos[i].0;
        let valor: &str = campos[i].1.as_str();
        proof {
            let v = vista_campos(campos@);
            assert(v.take(i + 1).drop_last() =~= v.take(i as int));
            assert(v.take(i + 1).last() == (nombre@, valor@));
        }
        if nombre_de_campo_valido(nombre) {
            let codificado = codificar_campo(nombre, valor);
            agregar(&mut salida, codificado.as_slice());
        }
        i = i + 1;
    }
    assert(vista_campos(campos@).take(campos@.len() as int) =~= vista_campos(campos@));
    salida
}

/// The fields of an ordinary entry: the message cut to the limit, the clamped level,
/// the application's identifier and the layer.
pub open spec fn entrada(identificador: Seq<char>, capa: Capa, nivel: u8, mensaje: Seq<char>) -> Seq<
    (Seq<char>, Seq<char>),
> {
    seq![
        ("MESSAGE"@, recortado(mensaje, LIMITE_MENSAJE as int)),
        ("PRIORITY"@, decimal(nivel_acotado(nivel) as nat)),
        ("SYSLOG_IDENTIFIER"@, identificador),
        ("VSK_CAPA"@, capa.texto()),
    ]
}

/// The fields of an ordinary entry.
pub fn campos_de(identificador: &str, capa: Capa, nivel: u8, mensaje: &str) -> (r: Vec<
    (&'static str, String),
>)
    ensures
        vista_campos(r@) == entrada(identificador@, capa, nivel, mensaje@),
        r@.len() == 4,
        r@[0].0@ == "MESSAGE"@ && r@[0].1@ == recortado(mensaje@, 16384),
        r@[1].0@ == "PRIORITY"@ && r@[1].1@ == decimal((if nivel <= 7 { nivel } else { 7 }) as nat),
        r@[2].0@ == "SYSLOG_IDENTIFIER"@ && r@[2].1@ == identificador@,
        r@[3].0@ == "VSK_CAPA"@ && r@[3].1@ == (if capa == Capa::Interfaz {
            "interfaz"@
        } else {
            "nucleo"@
        }),
{
    let r = vec![
        ("MESSAGE", recortar(mensaje, LIMITE_MENSAJE)),
        ("PRIORITY", en_decimal(nivel_valido(nivel) as u32)),
        ("SYSLOG_IDENTIFIER", String::from_str(identificador)),
        ("VSK_CAPA", String::from_str(capa.como_texto())),
    ];
    assert(vista_campos(r@) =~= entrada(identificador@, capa, nivel, mensaje@));
    assert(vista_campos(r@)[0] == (r@[0].0@, r@[0].1@));
    assert(vista_campos(r@)[1] == (r@[1].0@, r@[1].1@));
    assert(vista_campos(r@)[2] == (r@[2].0@, r@[2].1@));
    assert(vista_campos(r@)[3] == (r@[3].0@, r@[3].1@));
    r
}

/// The text that stands for an entry where there is no journal: that of its first
/// `MESSAGE` field, or a note that it has none.
pub open spec fn respaldo(campos: Seq<(Seq<char>, Seq<char>)>) -> Seq<char>
    decreases campos.len(),
{
    if campos.len() == 0 {
        "(sin mensaje)"@
    } else if campos[0].0 == "MESSAGE"@ {
        campos[0].1
    } else {
        respaldo(campos.drop_first())
    }
}

/// Where no field is named `MESSAGE` the fallback says there is no message; otherwise
/// it is the value of the first field named `MESSAGE`.
#[verifier::spinoff_prover]
pub proof fn ley_respaldo(campos: Seq<(Seq<char>, Seq<char>)>)
    ensures
        (forall|i: int| 0 <= i < campos.len() ==> #[trigger] campos[i].0 != "MESSAGE"@)
            ==> respaldo(campos) == "(sin mensaje)"@,
        forall|i: int|
            0 <= i < campos.len() && #[trigger] campos[i].0 == "MESSAGE"@ && (forall|j: int|
                0 <= j < i ==> campos[j].0 != "MESSAGE"@) ==> respaldo(campos) == campos[i].1,
    decreases campos.len(),
{
    if campos.len() > 0 {
        let resto = campos.drop_first();
        ley_respaldo(resto);
        assert forall|i: int| 0 <= i < resto.len() implies #[trigger] resto[i] == campos[i + 1] by {}
        if campos[0].0 != "MESSAGE"@ {
            assert forall|i: int|
                0 <= i < campos.len() && #[trigger] campos[i].0 == "MESSAGE"@ && (forall|j: int|
                    0 <= j < i ==> campos[j].0 != "MESSAGE"@) implies respaldo(campos)
                == campos[i].1 by {
                assert(i > 0);
                assert(resto[i - 1] == campos[i]);
                assert forall|j: int| 0 <= j < i - 1 implies resto[j].0 != "MESSAGE"@ by {
                    assert(resto[j] == campos[j + 1]);
                }
            }
            if forall|i: int| 0 <= i < campos.len() ==> #[trigger] campos[i].0 != "MESSAGE"@ {
                assert forall|i: int| 0 <= i < resto.len() implies #[trigger] resto[i].0
                    != "MESSAGE"@ by {
                    assert(resto[i] == campos[i + 1]);
                }
            }
        }
    }
}

/// What goes to `stderr` when the journal cannot take an entry: where it went before
/// this plugin.
pub fn mensaje_de_respaldo<'a>(campos: &'a [(&str, String)]) -> (r: &'a str)
    ensures
        r@ == respaldo(vista_campos(campos@)),
        (forall|i: int| 0 <= i < campos@.len() ==> #[trigger] campos@[i].0@ != "MESSAGE"@)
            ==> r@ == "(sin mensaje)"@,
        forall|i: int|
            0 <= i < campos@.len() && #[trigger] campos@[i].0@ == "MESSAGE"@ && (forall|j: int|
                0 <= j < i ==> campos@[j].0@ != "MESSAGE"@) ==> r@ == campos@[i].1@,
{
    let r = primer_mensaje(campos);
    proof {
        let v = vista_campos(campos@);
        ley_respaldo(v);
        assert forall|i: int| 0 <= i < campos@.len() implies #[trigger] v[i] == (
        campos@[i].0@,
        campos@[i].1@,
        ) by {}
        assert forall|i: int|
            0 <= i < campos@.len() && #[trigger] campos@[i].0@ == "MESSAGE"@ && (forall|j: int|
                0 <= j < i ==> campos@[j].0@ != "MESSAGE"@) implies r@ == campos@[i].1@ by {
            assert(v[i] == (campos@[i].0@, campos@[i].1@));
            assert forall|j: int| 0 <= j < i implies v[j].0 != "MESSAGE"@ by {
                assert(v[j] == (campos@[j].0@, campos@[j].1@));
            }
            assert(v[i].0 == "MESSAGE"@);
            assert(respaldo(v) == v[i].1);
        }
        if forall|i: int| 0 <= i < campos@.len() ==> #[trigger] campos@[i].0@ != "MESSAGE"@ {
            assert forall|i: int| 0 <= i < v.len() implies #[trigger] v[i].0 != "MESSAGE"@ by {
                assert(v[i] == (campos@[i].0@, campos@[i].1@));
            }
        }
    }
    r
}

fn primer_mensaje<'a>(campos: &'a [(&str, String)]) -> (r: &'a str)
    ensures
        r@ == respaldo(vista_campos(campos@)),
{
    let mut i: usize = 0;
    while i < campos.len()
        invariant
            i <= campos@.len(),
            respaldo(vista_campos(campos@)) == respaldo(vista_campos(campos@).skip(i as int)),
        decreases campos@.len() - i,
    {
        proof {
            let v = vista_campos(campos@);
            assert(v.skip(i as int).drop_first() =~= v.skip(i + 1));
            assert(v.skip(i as int)[0] == v[i as int]);
        }
        if iguales(campos[i].0, "MESSAGE") {
            return campos[i].1.as_str();
        }
        i = i + 1;
    }
    assert(vista_campos(campos@).skip(i as int) =~= Seq::<(Seq<char>, Seq<char>)>::empty());
    "(sin mensaje)"
}

} // verus!
