//! The plugin's errors.
//!
//! They are few on purpose: writing to the journal does not fail outwards. Not being
//! able to log something is no reason for what was being done to fail.
use vstd::prelude::*;

verus! {

#[derive(Debug)]
pub enum Error {
    /// The identifier asked for cannot sign journal entries.
    Identificador(String),
}

impl Error {
    /// The error's message, for showing it.
    pub fn texto(&self) -> (r: String)
        ensures
            match self {
                Error::Identificador(id) => r@ == "identificador inválido: "@ + id@,
            },
    {
        match self {
            Error::Identificador(id) => {
                let mut r = String::from_str("identificador inválido: ");
                r.append(id.as_str());
                r
            },
        }
    }
}

} // verus!
