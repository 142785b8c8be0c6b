//! Logging to the system journal for the VasakOS applications, under each
//! application's own name.
//!
//! An application opened from the menu is a child of the compositor, so what it
//! writes to `stderr` ends up in the journal under the session's unit. This library
//! builds entries of journald's native protocol that carry the application's
//! identifier, the layer (interface or core) and the level, and that no message text
//! can forge.
use vstd::prelude::*;
use vstd::string::*;
use vstd::utf8::*;

pub mod codificacion;
pub mod decimal;
pub mod diario;
pub mod error;
pub mod panico;
pub mod protocolo;

pub use diario::Capa;
pub use error::Error;

use codificacion::{contiene_byte, lema_ascii_en_utf8, lema_utf8_ascii};
use diario::{campos_de, entrada, vista_campos};

verus! {

/// Syslog levels, which are what the journal understands.
pub const EMERGENCIA: u8 = 0;

pub const CRITICO: u8 = 2;

pub const ERROR: u8 = 3;

pub const AVISO: u8 = 4;

pub const INFORMATIVO: u8 = 6;

pub const DEPURACION: u8 = 7;

/// How long an identifier may be, in bytes.
///
/// `journald` sets no limit, but a very long identifier breaks any listing and cannot
/// be typed by hand in `journalctl -t`.
pub const LIMITE_IDENTIFICADOR: usize = 64;

/// An identifier that can sign journal entries: not empty, at most
/// `LIMITE_IDENTIFICADOR` bytes, and without line feed, `=` or NUL, which separate
/// things in the protocol and would make the identifier impossible to search for.
pub open spec fn identificador_aceptable(s: Seq<char>) -> bool {
    &&& s.len() > 0
    &&& encode_utf8(s).len() <= LIMITE_IDENTIFICADOR
    &&& !s.contains('\n')
    &&& !s.contains('=')
    &&& !s.contains('\0')
}

/// Whether an identifier can sign journal entries.
pub fn identificador_valido(identificador: &str) -> (r: bool)
    ensures
        r == identificador_aceptable(identificador@),
        r <==> (identificador@.len() >= 1 && encode_utf8(identificador@).len() <= 64
            && !identificador@.contains('\n') && !identificador@.contains('=')
            && !identificador@.contains('\0')),
{
    let b = identificador.as_bytes();
    proof {
        if identificador@.len() > 0 {
            assert(encode_utf8(identificador@).len() > 0);
        }
        lema_ascii_en_utf8(identificador@, '\n');
        lema_ascii_en_utf8(identificador@, '=');
        lema_ascii_en_utf8(identificador@, '\0');
    }
    if b.len() == 0 || b.len() > LIMITE_IDENTIFICADOR {
        return false;
    }
    !contiene_byte(b, 0x0A) && !contiene_byte(b, 0x3D) && !contiene_byte(b, 0x00)
}

/// The identifier used when no other serves.
pub open spec fn identificador_de_reserva() -> Seq<char> {
    "vasak-app"@
}

/// The identifier signed with by default: the executable's file name, which is what
/// the journal already keeps in `_COMM`, so that new and old entries of the same
/// application fall together; `vasak-app` where there is no such name or it cannot
/// sign.
pub open spec fn identificador_por_defecto(ejecutable: Option<Seq<char>>) -> Seq<char> {
    match ejecutable {
        Some(nombre) => if identificador_aceptable(nombre) {
            nombre
        } else {
            identificador_de_reserva()
        },
        None => identificador_de_reserva(),
    }
}

/// The identifier to sign with by default, given the executable's file name if there
/// is one.
pub fn identificador_por_omision(ejecutable: Option<&str>) -> (r: String)
    ensures
        r@ == identificador_por_defecto(
            match ejecutable {
                Some(n) => Some(n@),
                None => None,
            },
        ),
        ejecutable matches Some(n) ==> (identificador_aceptable(n@) ==> r@ == n@),
        !(ejecutable matches Some(n) && identificador_aceptable(n@)) ==> r@ == "vasak-app"@,
{
    match ejecutable {
        Some(nombre) => {
            if identificador_valido(nombre) {
                return String::from_str(nombre);
            }
        },
        None => {},
    }
    proof {
        reveal_strlit("vasak-app");
    }
    String::from_str("vasak-app")
}

/// The identifier asked for when it can sign; otherwise the default one.
pub open spec fn identificador_elegido(pedido: Seq<char>, ejecutable: Option<Seq<char>>) -> Seq<
    char,
> {
    if identificador_aceptable(pedido) {
        pedido
    } else {
        identificador_por_defecto(ejecutable)
    }
}

/// The identifier to sign with when one is asked for. A bad identifier does not stop
/// the application: one that does not open over a logging problem would be worse than
/// one that logs under another name.
pub fn identificador_pedido(pedido: &str, ejecutable: Option<&str>) -> (r: String)
    ensures
        r@ == identificador_elegido(
            pedido@,
            match ejecutable {
                Some(n) => Some(n@),
                None => None,
            },
        ),
        identificador_aceptable(pedido@) ==> r@ == pedido@,
        !identificador_aceptable(pedido@) && (ejecutable matches Some(n) && identificador_aceptable(
            n@,
        )) ==> r@ == ejecutable->0@,
        !identificador_aceptable(pedido@) && !(ejecutable matches Some(n)
            && identificador_aceptable(n@)) ==> r@ == "vasak-app"@,
{
    if identificador_valido(pedido) {
        String::from_str(pedido)
    } else {
        identificador_por_omision(ejecutable)
    }
}

/// A name that can sign is used as it is: an executable's name that can sign is the
/// default identifier, and an identifier asked for that can sign is the one chosen.
/// Only a name that cannot sign gives way, to the executable's name and then to
/// `vasak-app`.
pub proof fn ley_un_nombre_valido_se_usa_tal_cual(pedido: Seq<char>, ejecutable: Seq<char>)
    ensures
        identificador_aceptable(ejecutable) ==> identificador_por_defecto(Some(ejecutable))
            == ejecutable,
        !identificador_aceptable(ejecutable) ==> identificador_por_defecto(Some(ejecutable))
            == "vasak-app"@,
        identificador_por_defecto(None) == "vasak-app"@,
        identificador_aceptable(pedido) ==> identificador_elegido(pedido, Some(ejecutable))
            == pedido,
        !identificador_aceptable(pedido) ==> identificador_elegido(pedido, Some(ejecutable))
            == identificador_por_defecto(Some(ejecutable)),
{
}

/// There is always an identifier to sign with: the default one, and the one chosen
/// when another is asked for, can always sign. Without it an entry would go unsigned
/// and be impossible to find again.
pub proof fn ley_siempre_hay_identificador(pedido: Seq<char>, ejecutable: Option<Seq<char>>)
    ensures
        identificador_aceptable(identificador_por_defecto(ejecutable)),
        identificador_aceptable(identificador_elegido(pedido, ejecutable)),
{
    reveal_strlit("vasak-app");
    assert(is_ascii_chars(identificador_de_reserva()));
    lema_utf8_ascii(identificador_de_reserva());
}

/// This application's journal.
pub struct Diario {
    identificador: String,
}

impl View for Diario {
    type V = Seq<char>;

    /// The identifier it signs with.
    closed spec fn view(&self) -> Seq<char> {
        self.identificador@
    }
}

impl Diario {
    #[verifier::type_invariant]
    spec fn firma_bien(self) -> bool {
        identificador_aceptable(self.identificador@)
    }

    /// A journal that signs with `identificador`, if it can sign.
    pub fn nuevo(identificador: &str) -> (r: Result<Diario, Error>)
        ensures
            identificador_aceptable(identificador@) <==> r is Ok,
            r matches Ok(d) ==> d@ == identificador@,
            r matches Err(Error::Identificador(t)) ==> t@ == identificador@,
    {
        if identificador_valido(identificador) {
            Ok(Diario { identificador: String::from_str(identificador) })
        } else {
            Err(Error::Identificador(String::from_str(identificador)))
        }
    }

    /// Who signs its entries; every journal signs with an identifier that can sign.
    pub fn identificador(&self) -> (r: &str)
        ensures
            r@ == self@,
            identificador_aceptable(r@),
    {
        proof {
            use_type_invariant(self);
        }
        self.identificador.as_str()
    }

    /// The entry for a message, with the level given.
    pub fn registrar(&self, capa: Capa, nivel: u8, mensaje: &str) -> (r: Vec<(&'static str, String)>)
        ensures
            vista_campos(r@) == entrada(self@, capa, nivel, mensaje@),
    {
        campos_de(self.identificador.as_str(), capa, nivel, mensaje)
    }

    pub fn error(&self, mensaje: &str) -> (r: Vec<(&'static str, String)>)
        ensures
            vista_campos(r@) == entrada(self@, Capa::Nucleo, ERROR, mensaje@),
    {
        self.registrar(Capa::Nucleo, ERROR, mensaje)
    }

    pub fn aviso(&self, mensaje: &str) -> (r: Vec<(&'static str, String)>)
        ensures
            vista_campos(r@) == entrada(self@, Capa::Nucleo, AVISO, mensaje@),
    {
        self.registrar(Capa::Nucleo, AVISO, mensaje)
    }

    pub fn informacion(&self, mensaje: &str) -> (r: Vec<(&'static str, String)>)
        ensures
            vista_campos(r@) == entrada(self@, Capa::Nucleo, INFORMATIVO, mensaje@),
    {
        self.registrar(Capa::Nucleo, INFORMATIVO, mensaje)
    }

    pub fn depuracion(&self, mensaje: &str) -> (r: Vec<(&'static str, String)>)
        ensures
            vista_campos(r@) == entrada(self@, Capa::Nucleo, DEPURACION, mensaje@),
    {
        self.registrar(Capa::Nucleo, DEPURACION, mensaje)
    }
}

} // verus!
