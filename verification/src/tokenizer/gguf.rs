//! The metadata of a model file, as the tokenizer reads it.

use vstd::prelude::*;

use crate::tokenizer::texto::{mesmo_texto, textos};

verus! {

/// A metadata value. Floats are kept as the bits of their IEEE-754 single
/// precision encoding; the kinds that no tokenizer key has are one variant.
#[derive(Debug)]
pub enum GgufValue {
    Str(String),
    U32(u32),
    StrArray(Vec<String>),
    F32Array(Vec<u32>),
    I32Array(Vec<i32>),
    Outro,
}

#[derive(Debug)]
pub enum GgufError {
    /// There is no entry under that key.
    ChaveAusente(String),
    /// The entry has another type than the one asked for.
    TipoErrado(String),
}

/// The key/value entries of a model file, in file order.
#[derive(Debug)]
pub struct GgufFile {
    pub entradas: Vec<(String, GgufValue)>,
}

/// A metadata value with its texts as character sequences.
pub enum ValorModelo {
    Str(Seq<char>),
    U32(u32),
    StrArray(Seq<Seq<char>>),
    F32Array(Seq<u32>),
    I32Array(Seq<i32>),
    Outro,
}

impl View for GgufValue {
    type V = ValorModelo;

    open spec fn view(&self) -> ValorModelo {
        match self {
            GgufValue::Str(s) => ValorModelo::Str(s@),
            GgufValue::U32(n) => ValorModelo::U32(*n),
            GgufValue::StrArray(v) => ValorModelo::StrArray(textos(v@)),
            GgufValue::F32Array(v) => ValorModelo::F32Array(v@),
            GgufValue::I32Array(v) => ValorModelo::I32Array(v@),
            GgufValue::Outro => ValorModelo::Outro,
        }
    }
}

/// The value of the first entry under that key.
pub open spec fn valor_em(e: Seq<(Seq<char>, ValorModelo)>, chave: Seq<char>) -> Option<ValorModelo>
    decreases e.len(),
{
    if e.len() == 0 {
        None
    } else if e[0].0 == chave {
        Some(e[0].1)
    } else {
        valor_em(e.drop_first(), chave)
    }
}

impl View for GgufFile {
    type V = Seq<(Seq<char>, ValorModelo)>;

    open spec fn view(&self) -> Seq<(Seq<char>, ValorModelo)> {
        self.entradas@.map_values(|e: (String, GgufValue)| (e.0@, e.1@))
    }
}

/// That `e` says that there is no entry under that key.
pub open spec fn erro_de_ausencia(e: GgufError, chave: Seq<char>) -> bool {
    e matches GgufError::ChaveAusente(k) && k@ == chave
}

impl GgufFile {
    /// The value of the first entry under that key, if there is one.
    pub fn buscar(&self, chave: &str) -> (r: Option<&GgufValue>)
        ensures
            match r {
                Some(v) => valor_em(self@, chave@) == Some(v@),
                None => valor_em(self@, chave@) is None,
            },
    {
        let mut i: usize = 0;
        proof {
            assert(self@.skip(0) =~= self@);
        }
        while i < self.entradas.len()
            invariant
                i <= self.entradas.len(),
                valor_em(self@, chave@) == valor_em(self@.skip(i as int), chave@),
            decreases self.entradas.len() - i,
        {
            assert(self@.skip(i as int)[0] == self@[i as int]);
            assert(self@.skip(i as int).drop_first() =~= self@.skip(i + 1));
            if mesmo_texto(self.entradas[i].0.as_str(), chave) {
                return Some(&self.entradas[i].1);
            }
            i += 1;
        }
        None
    }

    /// Like `buscar`, with an error for a missing entry.
    pub fn get(&self, chave: &str) -> (r: Result<&GgufValue, GgufError>)
        ensures
            match r {
                Ok(v) => valor_em(self@, chave@) == Some(v@),
                Err(e) => valor_em(self@, chave@) is None && erro_de_ausencia(e, chave@),
            },
    {
        match self.buscar(chave) {
            Some(v) => Ok(v),
            None => Err(GgufError::ChaveAusente(chave.to_owned())),
        }
    }
}

/// That `e` says that the entry `nome` has another type.
pub open spec fn erro_de_tipo(e: GgufError, nome: Seq<char>) -> bool {
    e matches GgufError::TipoErrado(k) && k@ == nome
}

impl GgufValue {
    pub fn as_str(&self, nome: &str) -> (r: Result<&str, GgufError>)
        ensures
            match r {
                Ok(s) => self@ == ValorModelo::Str(s@),
                Err(e) => !(self@ is Str) && erro_de_tipo(e, nome@),
            },
    {
        match self {
            GgufValue::Str(s) => Ok(s.as_str()),
            _ => Err(GgufError::TipoErrado(nome.to_owned())),
        }
    }

    pub fn as_u32(&self, nome: &str) -> (r: Result<u32, GgufError>)
        ensures
            match r {
                Ok(n) => self@ == ValorModelo::U32(n),
                Err(e) => !(self@ is U32) && erro_de_tipo(e, nome@),
            },
    {
        match self {
            GgufValue::U32(n) => Ok(*n),
            _ => Err(GgufError::TipoErrado(nome.to_owned())),
        }
    }

    pub fn as_string_array(&self, nome: &str) -> (r: Result<&Vec<String>, GgufError>)
        ensures
            match r {
                Ok(v) => self@ == ValorModelo::StrArray(textos(v@)),
                Err(e) => !(self@ is StrArray) && erro_de_tipo(e, nome@),
            },
    {
        match self {
            GgufValue::StrArray(v) => Ok(v),
            _ => Err(GgufError::TipoErrado(nome.to_owned())),
        }
    }

    pub fn as_f32_array(&self, nome: &str) -> (r: Result<&Vec<u32>, GgufError>)
        ensures
            match r {
                Ok(v) => self@ == ValorModelo::F32Array(v@),
                Err(e) => !(self@ is F32Array) && erro_de_tipo(e, nome@),
            },
    {
        match self {
            GgufValue::F32Array(v) => Ok(v),
            _ => Err(GgufError::TipoErrado(nome.to_owned())),
        }
    }

    pub fn as_i32_array(&self, nome: &str) -> (r: Result<&Vec<i32>, GgufError>)
        ensures
            match r {
                Ok(v) => self@ == ValorModelo::I32Array(v@),
                Err(e) => !(self@ is I32Array) && erro_de_tipo(e, nome@),
            },
    {
        match self {
            GgufValue::I32Array(v) => Ok(v),
            _ => Err(GgufError::TipoErrado(nome.to_owned())),
        }
    }
}

} // verus!
