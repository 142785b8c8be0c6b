//! Making a panic leave a trace.
//!
//! With the hook in place, a panic leaves in the journal its message, file and line,
//! under the application's name and with critical priority.
use vstd::prelude::*;
use vstd::string::*;

use crate::decimal::{decimal, en_decimal, valor_decimal};
use crate::diario::{campos_de, entrada, vista_campos, Capa};

verus! {

/// Syslog level for a panic: critical, not error. A panic is not "an operation
/// failed", it is the application ending.
pub const NIVEL_CRITICO: u8 = 2;

/// The text of a panic, with its location if there is one.
pub open spec fn texto_de_panico(carga: Seq<char>, ubicacion: Option<Seq<char>>) -> Seq<char> {
    match ubicacion {
        Some(donde) => "pánico en "@ + donde + ": "@ + carga,
        None => "pánico: "@ + carga,
    }
}

/// The text of a panic holds the whole payload: it is `pánico en {where}: ` or
/// `pánico: ` followed by every character of the payload, nothing cut.
pub proof fn ley_la_descripcion_lleva_toda_la_carga(carga: Seq<char>, ubicacion: Option<Seq<char>>)
    ensures
        ({
            let prefijo = match ubicacion {
                Some(d) => "pánico en "@ + d + ": "@,
                None => "pánico: "@,
            };
            let t = texto_de_panico(carga, ubicacion);
            &&& t.len() == prefijo.len() + carga.len()
            &&& t.take(prefijo.len() as int) == prefijo
            &&& t.skip(prefijo.len() as int) == carga
        }),
{
    let prefijo = match ubicacion {
        Some(d) => "pánico en "@ + d + ": "@,
        None => "pánico: "@,
    };
    let t = texto_de_panico(carga, ubicacion);
    assert(t =~= prefijo + carga);
    assert(t.take(prefijo.len() as int) =~= prefijo);
    assert(t.skip(prefijo.len() as int) =~= carga);
}

pub fn descripcion(carga: &str, ubicacion: Option<&str>) -> (r: String)
    ensures
        r@ == texto_de_panico(
            carga@,
            match ubicacion {
                Some(d) => Some(d@),
                None => None,
            },
        ),
        ({
            let prefijo = match ubicacion {
                Some(d) => "pánico en "@ + d@ + ": "@,
                None => "pánico: "@,
            };
            &&& r@.len() == prefijo.len() + carga@.len()
            &&& r@.take(prefijo.len() as int) == prefijo
            &&& r@.skip(prefijo.len() as int) == carga@
        }),
{
    proof {
        ley_la_descripcion_lleva_toda_la_carga(
            carga@,
            match ubicacion {
                Some(d) => Some(d@),
                None => None,
            },
        );
    }
    match ubicacion {
        Some(donde) => {
            let mut r = String::from_str("pánico en ");
            r.append(donde);
            r.append(": ");
            r.append(carga);
            r
        },
        None => {
            let mut r = String::from_str("pánico: ");
            r.append(carga);
            r
        },
    }
}

/// The text of a panic's payload: the text of a literal (`panic!("...")` leaves a
/// `&str`), else that of a formatted message (`panic!("{}", x)` leaves a `String`),
/// else a note that there is none; that there was a panic is logged all the same.
pub open spec fn texto_de_carga(literal: Option<Seq<char>>, formateado: Option<Seq<char>>) -> Seq<
    char,
> {
    match literal {
        Some(t) => t,
        None => match formateado {
            Some(t) => t,
            None => "(sin texto)"@,
        },
    }
}

/// Takes the text out of a panic's payload, given the payload seen as a `&str` and as
/// a `String`, where it is one.
pub fn carga_de(literal: Option<&str>, formateado: Option<&str>) -> (r: String)
    ensures
        literal matches Some(t) ==> r@ == t@,
        literal is None ==> (formateado matches Some(t) ==> r@ == t@),
        literal is None && formateado is None ==> r@ == "(sin texto)"@,
        r@ == texto_de_carga(
            match literal {
                Some(t) => Some(t@),
                None => None,
            },
            match formateado {
                Some(t) => Some(t@),
                None => None,
            },
        ),
{
    match literal {
        Some(t) => String::from_str(t),
        None => match formateado {
            Some(t) => String::from_str(t),
            None => String::from_str("(sin texto)"),
        },
    }
}

/// Where a panic happened, as `file:line`.
pub open spec fn ubicacion_de(lugar: Option<(Seq<char>, u32)>) -> Option<Seq<char>> {
    match lugar {
        Some((archivo, linea)) => Some(archivo + ":"@ + decimal(linea as nat)),
        None => None,
    }
}

/// The entry a panic leaves: an ordinary core entry at critical level whose message is
/// the panic's text with its location, followed, where the location is known, by the
/// `CODE_FILE` and `CODE_LINE` fields that `journalctl -o verbose` shows.
pub open spec fn entrada_de_panico(
    identificador: Seq<char>,
    carga: Seq<char>,
    lugar: Option<(Seq<char>, u32)>,
) -> Seq<(Seq<char>, Seq<char>)> {
    let base = entrada(
        identificador,
        Capa::Nucleo,
        NIVEL_CRITICO,
        texto_de_panico(carga, ubicacion_de(lugar)),
    );
    match lugar {
        Some((archivo, linea)) => base + seq![
            ("CODE_FILE"@, archivo),
            ("CODE_LINE"@, decimal(linea as nat)),
        ],
        None => base,
    }
}

/// The fields of the entry for a panic with payload text `carga` at `lugar`.
pub fn campos_de_panico(identificador: &str, carga: &str, lugar: Option<(&str, u32)>) -> (r: Vec<
    (&'static str, String),
>)
    ensures
        vista_campos(r@) == entrada_de_panico(
            identificador@,
            carga@,
            match lugar {
                Some((archivo, linea)) => Some((archivo@, linea)),
                None => None,
            },
        ),
        r@[0].0@ == "MESSAGE"@ && r@[1].0@ == "PRIORITY"@ && r@[1].1@ == "2"@,
        r@[2].0@ == "SYSLOG_IDENTIFIER"@ && r@[2].1@ == identificador@,
        r@[3].0@ == "VSK_CAPA"@ && r@[3].1@ == "nucleo"@,
        lugar is None ==> r@.len() == 4,
        lugar matches Some((archivo, linea)) ==> r@.len() == 6 && r@[4].0@ == "CODE_FILE"@
            && r@[4].1@ == archivo@ && r@[5].0@ == "CODE_LINE"@ && valor_decimal(r@[5].1@)
            == linea,
{
    let ubicacion: Option<String> = match lugar {
        Some((archivo, linea)) => {
            let mut u = String::from_str(archivo);
            u.append(":");
            let l = en_decimal(linea);
            u.append(l.as_str());
            Some(u)
        },
        None => None,
    };
    let texto = match &ubicacion {
        Some(u) => descripcion(carga, Some(u.as_str())),
        None => descripcion(carga, None),
    };
    let mut campos = campos_de(identificador, Capa::Nucleo, NIVEL_CRITICO, texto.as_str());
    let ghost base = campos@;
    proof {
        reveal_strlit("2");
        assert(vista_campos(base)[0] == (base[0].0@, base[0].1@));
        assert(vista_campos(base)[1] == (base[1].0@, base[1].1@));
        assert(vista_campos(base)[2] == (base[2].0@, base[2].1@));
        assert(vista_campos(base)[3] == (base[3].0@, base[3].1@));
        assert(decimal(2) =~= "2"@);
    }
    match lugar {
        Some((archivo, linea)) => {
            campos.push(("CODE_FILE", String::from_str(archivo)));
            campos.push(("CODE_LINE", en_decimal(linea)));
            assert(vista_campos(campos@) =~= vista_campos(base) + seq![
                ("CODE_FILE"@, archivo@),
                ("CODE_LINE"@, decimal(linea as nat)),
            ]);
        },
        None => {},
    }
    campos
}

} // verus!
