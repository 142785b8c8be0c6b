//! How the journal reads a datagram of the native protocol, and what it reads back
//! from the datagrams that this library builds.
//!
//! A field's name runs to the first `=` or line feed. After `=` the value runs to the
//! next line feed. After a line feed come eight little-endian bytes with the value's
//! length, the value itself, read without looking at its content, and a line feed.
use vstd::prelude::*;
use vstd::utf8::*;

use crate::codificacion::{lema_ascii_en_utf8, lema_utf8_ascii, lema_utf8_largo, IGUAL, SALTO};
use crate::decimal::decimal;
use crate::diario::{
    byte_de_campo, bytes_le, campo_codificado, datagrama, entrada, forma_corta, forma_larga,
    largo_le, ley_recorte_cabe, nivel_acotado, nombre_valido, recortado, valor_le, Capa,
    LIMITE_MENSAJE, MARCA_DE_RECORTE,
};

verus! {

broadcast use vstd::seq_lib::group_seq_properties;

/// Where the name of the field at the start of `s` ends: the first `=` or line feed.
pub open spec fn fin_de_nombre(s: Seq<u8>) -> Option<nat>
    decreases s.len(),
{
    if s.len() == 0 {
        None
    } else if s[0] == IGUAL || s[0] == SALTO {
        Some(0)
    } else {
        match fin_de_nombre(s.drop_first()) {
            Some(k) => Some(k + 1),
            None => None,
        }
    }
}

/// Where the first line of `s` ends.
pub open spec fn fin_de_linea(s: Seq<u8>) -> Option<nat>
    decreases s.len(),
{
    if s.len() == 0 {
        None
    } else if s[0] == SALTO {
        Some(0)
    } else {
        match fin_de_linea(s.drop_first()) {
            Some(k) => Some(k + 1),
            None => None,
        }
    }
}

/// Reads the field at the start of `s`: its name, its value and what follows it.
pub open spec fn leer_campo(s: Seq<u8>) -> Option<(Seq<u8>, Seq<u8>, Seq<u8>)> {
    match fin_de_nombre(s) {
        None => None,
        Some(k) => {
            let nombre = s.take(k as int);
            let resto = s.skip(k + 1int);
            if s[k as int] == IGUAL {
                match fin_de_linea(resto) {
                    None => None,
                    Some(m) => Some((nombre, resto.take(m as int), resto.skip(m + 1int))),
                }
            } else if resto.len() >= 8 {
                let n: nat = valor_le(resto.take(8));
                let datos = resto.skip(8);
                if n < datos.len() && datos[n as int] == SALTO {
                    Some((nombre, datos.take(n as int), datos.skip(n + 1int)))
                } else {
                    None
                }
            } else {
                None
            }
        }
    }
}

/// The fields the journal reads from a datagram, in order, or `None` where the
/// datagram is malformed.
pub open spec fn leer_datagrama(s: Seq<u8>) -> Option<Seq<(Seq<u8>, Seq<u8>)>>
    decreases s.len(),
{
    if s.len() == 0 {
        Some(Seq::empty())
    } else {
        match leer_campo(s) {
            None => None,
            Some((nombre, valor, resto)) => if resto.len() < s.len() {
                match leer_datagrama(resto) {
                    None => None,
                    Some(otros) => Some(seq![(nombre, valor)] + otros),
                }
            } else {
                None
            },
        }
    }
}

/// The fields of a list that go into its datagram, as bytes: those with a valid name,
/// in order.
pub open spec fn escritos(campos: Seq<(Seq<char>, Seq<char>)>) -> Seq<(Seq<u8>, Seq<u8>)>
    decreases campos.len(),
{
    if campos.len() == 0 {
        Seq::empty()
    } else {
        let resto = escritos(campos.drop_last());
        let (nombre, valor) = campos.last();
        if nombre_valido(encode_utf8(nombre)) {
            resto.push((encode_utf8(nombre), encode_utf8(valor)))
        } else {
            resto
        }
    }
}

/// 256 to the power `k`.
pub open spec fn potencia_256(k: nat) -> nat
    decreases k,
{
    if k == 0 {
        1
    } else {
        256 * potencia_256((k - 1) as nat)
    }
}

/// A value whose length the eight length bytes can hold.
pub open spec fn largo_representable(valor: Seq<char>) -> bool {
    encode_utf8(valor).len() < potencia_256(8)
}

/// Eight bytes hold any number below 2^64.
pub proof fn lema_potencia_8()
    ensures
        potencia_256(8) == 0x1_0000_0000_0000_0000,
{
    reveal_with_fuel(potencia_256, 9);
}

proof fn lema_fin_de_nombre(n: Seq<u8>, sep: u8, resto: Seq<u8>)
    requires
        forall|i: int| 0 <= i < n.len() ==> n[i] != IGUAL && n[i] != SALTO,
        sep == IGUAL || sep == SALTO,
    ensures
        fin_de_nombre(n + seq![sep] + resto) == Some(n.len()),
    decreases n.len(),
{
    let s = n + seq![sep] + resto;
    if n.len() == 0 {
        assert(s[0] == sep);
    } else {
        lema_fin_de_nombre(n.drop_first(), sep, resto);
        assert(s.drop_first() =~= n.drop_first() + seq![sep] + resto);
        assert(s[0] == n[0]);
    }
}

proof fn lema_fin_de_linea(v: Seq<u8>, resto: Seq<u8>)
    requires
        !v.contains(SALTO),
    ensures
        fin_de_linea(v + seq![SALTO] + resto) == Some(v.len()),
    decreases v.len(),
{
    let s = v + seq![SALTO] + resto;
    if v.len() == 0 {
        assert(s[0] == SALTO);
    } else {
        assert(v.drop_first().contains(SALTO) ==> v.contains(SALTO)) by {
            if v.drop_first().contains(SALTO) {
                let i: int = choose|i: int| 0 <= i < v.drop_first().len() && v.drop_first()[i] == SALTO;
                assert(v[i + 1] == SALTO);
            }
        }
        lema_fin_de_linea(v.drop_first(), resto);
        assert(s.drop_first() =~= v.drop_first() + seq![SALTO] + resto);
        assert(s[0] == v[0]);
    }
}

/// Little-endian bytes read back give the number written, when it fits.
pub proof fn lema_valor_le(n: nat, k: nat)
    requires
        n < potencia_256(k),
    ensures
        bytes_le(n, k).len() == k,
        valor_le(bytes_le(n, k)) == n,
    decreases k,
{
    let b = bytes_le(n, k);
    if k == 0 {
        assert(b =~= Seq::<u8>::empty());
    } else {
        let p: nat = potencia_256((k - 1) as nat);
        assert(n / 256 < p) by (nonlinear_arith)
            requires
                n < 256 * p,
        ;
        lema_valor_le(n / 256, (k - 1) as nat);
        assert(b.drop_first() =~= bytes_le(n / 256, (k - 1) as nat));
        assert(b[0] as nat == n % 256);
        assert(n == n % 256 + 256 * (n / 256)) by (nonlinear_arith);
    }
}

proof fn lema_leer_forma_larga(n: Seq<u8>, v: Seq<u8>, resto: Seq<u8>)
    requires
        forall|i: int| 0 <= i < n.len() ==> n[i] != IGUAL && n[i] != SALTO,
        v.len() < potencia_256(8),
    ensures
        leer_campo(forma_larga(n, v) + resto) == Some((n, v, resto)),
{
    let cola = largo_le(v.len()) + v + seq![SALTO] + resto;
    let s = forma_larga(n, v) + resto;
    assert(s =~= n + seq![SALTO] + cola);
    lema_fin_de_nombre(n, SALTO, cola);
    lema_valor_le(v.len(), 8);
    assert(s[n.len() as int] == SALTO);
    let r = s.skip(n.len() + 1int);
    assert(r =~= cola);
    assert(r.take(8) =~= largo_le(v.len()));
    let datos = r.skip(8);
    assert(datos =~= v + seq![SALTO] + resto);
    assert(datos[v.len() as int] == SALTO);
    assert(datos.take(v.len() as int) =~= v);
    assert(datos.skip(v.len() + 1int) =~= resto);
    assert(s.take(n.len() as int) =~= n);
}

proof fn lema_leer_forma_corta(n: Seq<u8>, v: Seq<u8>, resto: Seq<u8>)
    requires
        forall|i: int| 0 <= i < n.len() ==> n[i] != IGUAL && n[i] != SALTO,
        !v.contains(SALTO),
    ensures
        leer_campo(forma_corta(n, v) + resto) == Some((n, v, resto)),
{
    let cola = v + seq![SALTO] + resto;
    let s = forma_corta(n, v) + resto;
    assert(s =~= n + seq![IGUAL] + cola);
    lema_fin_de_nombre(n, IGUAL, cola);
    assert(s[n.len() as int] == IGUAL);
    let r = s.skip(n.len() + 1int);
    assert(r =~= cola);
    lema_fin_de_linea(v, resto);
    assert(r.take(v.len() as int) =~= v);
    assert(r.skip(v.len() + 1int) =~= resto);
    assert(s.take(n.len() as int) =~= n);
}

/// The journal reads back one encoded field, and stops where the field ends.
pub proof fn lema_leer_campo(nombre: Seq<char>, valor: Seq<char>, resto: Seq<u8>)
    requires
        nombre_valido(encode_utf8(nombre)),
        largo_representable(valor),
    ensures
        leer_campo(campo_codificado(nombre, valor) + resto) == Some(
            (encode_utf8(nombre), encode_utf8(valor), resto),
        ),
{
    let n = encode_utf8(nombre);
    let v = encode_utf8(valor);
    assert forall|i: int| 0 <= i < n.len() implies n[i] != IGUAL && n[i] != SALTO by {
        assert(byte_de_campo(n[i]));
    }
    lema_ascii_en_utf8(valor, '\n');
    if valor.contains('\n') {
        lema_leer_forma_larga(n, v, resto);
    } else {
        lema_leer_forma_corta(n, v, resto);
    }
}

/// How the fields written grow by one field.
proof fn lema_escritos_push(campos: Seq<(Seq<char>, Seq<char>)>, campo: (Seq<char>, Seq<char>))
    ensures
        escritos(campos.push(campo)) == if nombre_valido(encode_utf8(campo.0)) {
            escritos(campos).push((encode_utf8(campo.0), encode_utf8(campo.1)))
        } else {
            escritos(campos)
        },
{
    assert(campos.push(campo).drop_last() =~= campos);
}

proof fn lema_leer_datagrama_con_cola(
    campos: Seq<(Seq<char>, Seq<char>)>,
    cola: Seq<u8>,
    leidos: Seq<(Seq<u8>, Seq<u8>)>,
)
    requires
        forall|i: int| 0 <= i < campos.len() ==> largo_representable(#[trigger] campos[i].1),
        leer_datagrama(cola) == Some(leidos),
    ensures
        leer_datagrama(datagrama(campos) + cola) == Some(escritos(campos) + leidos),
    decreases campos.len(),
{
    if campos.len() == 0 {
        assert(datagrama(campos) + cola =~= cola);
        assert(escritos(campos) + leidos =~= leidos);
    } else {
        let previos = campos.drop_last();
        let (nombre, valor) = campos.last();
        assert(largo_representable(campos[campos.len() - 1].1));
        if nombre_valido(encode_utf8(nombre)) {
            let campo = campo_codificado(nombre, valor);
            let s = campo + cola;
            lema_leer_campo(nombre, valor, cola);
            assert(encode_utf8(nombre).len() > 0);
            assert(s.len() > cola.len());
            assert(s.len() > 0);
            let uno = seq![(encode_utf8(nombre), encode_utf8(valor))];
            assert(leer_datagrama(s) == Some(uno + leidos));
            lema_leer_datagrama_con_cola(previos, s, uno + leidos);
            assert(datagrama(campos) + cola =~= datagrama(previos) + s);
            assert(escritos(campos) + leidos =~= escritos(previos) + (uno + leidos));
        } else {
            lema_leer_datagrama_con_cola(previos, cola, leidos);
        }
    }
}

/// What a write gives back: the journal reads from the datagram of a list of fields
/// exactly its fields with a valid name, in order, each with its own name and value,
/// whatever the values hold. A value cannot add, drop or change a field.
pub proof fn ley_el_diario_lee_lo_escrito(campos: Seq<(Seq<char>, Seq<char>)>)
    requires
        forall|i: int| 0 <= i < campos.len() ==> largo_representable(#[trigger] campos[i].1),
    ensures
        leer_datagrama(datagrama(campos)) == Some(escritos(campos)),
{
    let vacio = Seq::<u8>::empty();
    assert(leer_datagrama(vacio) == Some(Seq::<(Seq<u8>, Seq<u8>)>::empty()));
    lema_leer_datagrama_con_cola(campos, vacio, Seq::empty());
    assert(datagrama(campos) + vacio =~= datagrama(campos));
    assert(escritos(campos) + Seq::<(Seq<u8>, Seq<u8>)>::empty() =~= escritos(campos));
}

proof fn lema_escritos_validos(campos: Seq<(Seq<char>, Seq<char>)>)
    ensures
        forall|i: int|
            0 <= i < escritos(campos).len() ==> nombre_valido(#[trigger] escritos(campos)[i].0),
    decreases campos.len(),
{
    if campos.len() > 0 {
        let previos = escritos(campos.drop_last());
        lema_escritos_validos(campos.drop_last());
        let (nombre, valor) = campos.last();
        if nombre_valido(encode_utf8(nombre)) {
            let nuevos = previos.push((encode_utf8(nombre), encode_utf8(valor)));
            assert forall|i: int| 0 <= i < nuevos.len() implies nombre_valido(
                #[trigger] nuevos[i].0,
            ) by {
                if i < previos.len() {
                    assert(nuevos[i] == previos[i]);
                }
            }
        }
    }
}

/// The journal's own fields cannot be forged: every field that the journal reads from
/// a datagram built from any list of fields has a name it accepts, and none starts with
/// `_`, the mark of `_PID`, `_UID`, `_COMM` and the other fields only journald sets.
pub proof fn ley_ningun_campo_reservado(campos: Seq<(Seq<char>, Seq<char>)>)
    requires
        forall|i: int| 0 <= i < campos.len() ==> largo_representable(#[trigger] campos[i].1),
    ensures
        leer_datagrama(datagrama(campos)) matches Some(leidos) && forall|i: int|
            0 <= i < leidos.len() ==> nombre_valido(#[trigger] leidos[i].0) && leidos[i].0[0]
                != 0x5F,
{
    ley_el_diario_lee_lo_escrito(campos);
    lema_escritos_validos(campos);
}

/// A character that may stand in a field name.
pub open spec fn caracter_de_campo(c: char) -> bool {
    ('A' <= c && c <= 'Z') || ('0' <= c && c <= '9') || c == '_'
}

/// A name written with upper-case letters, digits and `_`, not starting with `_` or a
/// digit, is one the journal accepts.
pub proof fn lema_nombre_valido(s: Seq<char>)
    requires
        0 < s.len() <= 64,
        s[0] != '_',
        !('0' <= s[0] && s[0] <= '9'),
        forall|i: int| 0 <= i < s.len() ==> caracter_de_campo(#[trigger] s[i]),
    ensures
        nombre_valido(encode_utf8(s)),
{
    assert(is_ascii_chars(s));
    lema_utf8_ascii(s);
    let b = encode_utf8(s);
    assert forall|i: int| 0 <= i < b.len() implies byte_de_campo(#[trigger] b[i]) by {
        assert(b[i] == s[i] as u8);
        assert(caracter_de_campo(s[i]));
    }
}

/// The names of the fields of an ordinary entry are all ones the journal accepts.
pub proof fn lema_nombres_de_entrada()
    ensures
        nombre_valido(encode_utf8("MESSAGE"@)),
        nombre_valido(encode_utf8("PRIORITY"@)),
        nombre_valido(encode_utf8("SYSLOG_IDENTIFIER"@)),
        nombre_valido(encode_utf8("VSK_CAPA"@)),
{
    reveal_strlit("MESSAGE");
    reveal_strlit("PRIORITY");
    reveal_strlit("SYSLOG_IDENTIFIER");
    reveal_strlit("VSK_CAPA");
    lema_nombre_valido("MESSAGE"@);
    lema_nombre_valido("PRIORITY"@);
    lema_nombre_valido("SYSLOG_IDENTIFIER"@);
    lema_nombre_valido("VSK_CAPA"@);
}

/// The identifier is not chosen by the message: whatever the message holds, line
/// feeds and made-up `FIELD=value` lines included, the journal reads from an ordinary
/// entry exactly four fields: the cut message, the clamped level, the application's
/// identifier and the layer.
pub proof fn ley_el_identificador_no_lo_elige_el_mensaje(
    identificador: Seq<char>,
    capa: Capa,
    nivel: u8,
    mensaje: Seq<char>,
)
    requires
        largo_representable(identificador),
    ensures
        leer_datagrama(datagrama(entrada(identificador, capa, nivel, mensaje))) == Some(
            seq![
                (encode_utf8("MESSAGE"@), encode_utf8(recortado(mensaje, LIMITE_MENSAJE as int))),
                (encode_utf8("PRIORITY"@), encode_utf8(decimal(nivel_acotado(nivel) as nat))),
                (encode_utf8("SYSLOG_IDENTIFIER"@), encode_utf8(identificador)),
                (encode_utf8("VSK_CAPA"@), encode_utf8(capa.texto())),
            ],
        ),
{
    let e = entrada(identificador, capa, nivel, mensaje);
    lema_nombres_de_entrada();
    lema_potencia_8();
    reveal_strlit("… (recortado)");
    lema_utf8_largo(MARCA_DE_RECORTE@);
    ley_recorte_cabe(mensaje, LIMITE_MENSAJE as int);
    lema_utf8_largo(decimal(nivel_acotado(nivel) as nat));
    lema_utf8_largo(capa.texto());
    reveal_strlit("interfaz");
    reveal_strlit("nucleo");
    assert forall|i: int| 0 <= i < e.len() implies largo_representable(#[trigger] e[i].1) by {}
    ley_el_diario_lee_lo_escrito(e);
    let vacio = Seq::<(Seq<char>, Seq<char>)>::empty();
    assert(e =~= vacio.push(e[0]).push(e[1]).push(e[2]).push(e[3]));
    assert(escritos(vacio) =~= Seq::<(Seq<u8>, Seq<u8>)>::empty());
    lema_escritos_push(vacio, e[0]);
    lema_escritos_push(vacio.push(e[0]), e[1]);
    lema_escritos_push(vacio.push(e[0]).push(e[1]), e[2]);
    lema_escritos_push(vacio.push(e[0]).push(e[1]).push(e[2]), e[3]);
}

} // verus!
