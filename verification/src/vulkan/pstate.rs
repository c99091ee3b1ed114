//! Fixed clocks while a GPU is used.
//!
//! The clock is fixed with the first use and goes back to automatic when the
//! device is idle. A device that gets hot goes one step down until it has
//! cooled.

use vstd::prelude::*;

use crate::tokenizer::texto::mesmo_texto;
use crate::vulkan::ambiente::{aparado, caracteres, le_numero, numero, texto_aparado};
use crate::vulkan::device::{comeca, comeca_com};

verus! {

/// Milliseconds without use after which a device is idle.
pub const OCIOSO: u64 = 2_000;

/// Degrees at which a device is hot, and at which it is cool again.
pub const QUENTE: i64 = 95;

pub const FRIO: i64 = 85;

/// Milliseconds between two looks at the sensor.
pub const PERIODO: u64 = 250;

/// Milliseconds that a hot device stays one step down at least.
pub const ESFRIAR: u64 = 10_000;

/// The states of the clock, as the driver numbers them.
pub const PSTATE_NONE: u32 = 0;

pub const PSTATE_STANDARD: u32 = 1;

pub const PSTATE_PEAK: u32 = 4;

/// The state that `LLAMA_RS_PSTATE` asks for; `None` leaves the clock alone.
pub open spec fn modo_de(v: Option<&str>) -> Option<u32> {
    match v {
        None => Some(PSTATE_STANDARD),
        Some(t) => if t@ == "standard"@ {
            Some(PSTATE_STANDARD)
        } else if t@ == "peak"@ {
            Some(PSTATE_PEAK)
        } else {
            None
        },
    }
}

pub fn modo_do_ambiente(v: Option<&str>) -> (r: Option<u32>)
    ensures
        r == modo_de(v),
{
    match v {
        None => Some(PSTATE_STANDARD),
        Some(t) => if mesmo_texto(t, "standard") {
            Some(PSTATE_STANDARD)
        } else if mesmo_texto(t, "peak") {
            Some(PSTATE_PEAK)
        } else {
            None
        },
    }
}

/// One step down.
pub open spec fn abaixo(modo: u32) -> u32 {
    if modo == PSTATE_PEAK {
        PSTATE_STANDARD
    } else {
        PSTATE_NONE
    }
}

pub fn degrau_abaixo(modo: u32) -> (r: u32)
    ensures
        r == abaixo(modo),
{
    if modo == PSTATE_PEAK {
        PSTATE_STANDARD
    } else {
        PSTATE_NONE
    }
}

/// What is known of the clock of a device. Times are milliseconds of one clock
/// that never goes back.
#[derive(Clone, Copy, Debug, PartialEq, Eq, Structural)]
pub struct Estado {
    /// The state that the driver was asked for.
    pub aplicado: u32,
    /// Until when the device stays one step down, since it was last hot.
    pub quente_ate: Option<u64>,
    pub avisou: bool,
    pub ultimo_uso: u64,
    /// Whether the last use was a prefill, which is bound by the clock of the
    /// cores.
    pub prefill: bool,
}

/// The state without regard to heat and idleness.
pub open spec fn base_de(e: Estado, modo: u32) -> u32 {
    if e.prefill {
        PSTATE_PEAK
    } else {
        modo
    }
}

/// Whether a device is idle.
pub open spec fn ocioso(e: Estado, agora: int) -> bool {
    agora - e.ultimo_uso >= OCIOSO
}

/// The state that a device should have.
pub open spec fn alvo_de(e: Estado, modo: u32, agora: int) -> u32 {
    if ocioso(e, agora) {
        PSTATE_NONE
    } else if e.quente_ate is Some {
        abaixo(base_de(e, modo))
    } else {
        base_de(e, modo)
    }
}

/// After a look at the sensor.
pub open spec fn depois_da_leitura(e: Estado, temp: Option<i64>, agora: int) -> Estado {
    match temp {
        Some(t) => if t >= QUENTE {
            Estado { quente_ate: Some((agora + ESFRIAR) as u64), avisou: true, ..e }
        } else if t <= FRIO && e.quente_ate is Some && agora >= e.quente_ate->Some_0 {
            Estado { quente_ate: None, ..e }
        } else {
            e
        },
        None => e,
    }
}

/// The state after the driver took the request or refused it.
pub open spec fn depois_de_aplicar(e: Estado, pstate: u32, ok: bool) -> Estado {
    if ok {
        Estado { aplicado: pstate, ..e }
    } else {
        e
    }
}

impl Estado {
    /// The state of a device whose clock has just been fixed.
    pub fn novo(modo: u32, agora: u64) -> (r: Self)
        ensures
            r == (Estado {
                aplicado: modo,
                quente_ate: None,
                avisou: false,
                ultimo_uso: agora,
                prefill: false,
            }),
    {
        Estado {
            aplicado: modo,
            quente_ate: None,
            avisou: false,
            ultimo_uso: agora,
            prefill: false,
        }
    }

    /// What to ask the driver for, if the device does not have it yet.
    pub fn ajustar(&self, modo: u32, agora: u64) -> (r: Option<u32>)
        ensures
            r == (if alvo_de(*self, modo, agora as int) != self.aplicado {
                Some(alvo_de(*self, modo, agora as int))
            } else {
                None
            }),
    {
        let base: u32 = if self.prefill {
            PSTATE_PEAK
        } else {
            modo
        };
        let alvo: u32 = if agora.saturating_sub(self.ultimo_uso) >= OCIOSO {
            PSTATE_NONE
        } else if self.quente_ate.is_some() {
            degrau_abaixo(base)
        } else {
            base
        };
        if alvo != self.aplicado {
            Some(alvo)
        } else {
            None
        }
    }

    /// The driver took the request, or refused it.
    pub fn aplicou(&mut self, pstate: u32, ok: bool)
        ensures
            *final(self) == depois_de_aplicar(*old(self), pstate, ok),
    {
        if ok {
            self.aplicado = pstate;
        }
    }

    /// The device is about to be used. Returns what to ask the driver for.
    pub fn em_uso(&mut self, modo: u32, prefill: bool, agora: u64) -> (r: Option<u32>)
        ensures
            *final(self) == (Estado { ultimo_uso: agora, prefill, ..*old(self) }),
            r == (if alvo_de(*final(self), modo, agora as int) != old(self).aplicado {
                Some(alvo_de(*final(self), modo, agora as int))
            } else {
                None
            }),
    {
        self.ultimo_uso = agora;
        self.prefill = prefill;
        self.ajustar(modo, agora)
    }

    /// A look at the sensor. Returns whether to warn, which happens once, and
    /// what to ask the driver for.
    pub fn vigiar(&mut self, modo: u32, temp: Option<i64>, agora: u64) -> (r: (
        bool,
        Option<u32>,
    ))
        requires
            agora + ESFRIAR <= u64::MAX,
        ensures
            *final(self) == depois_da_leitura(*old(self), temp, agora as int),
            r.0 == (final(self).avisou && !old(self).avisou),
            r.1 == (if alvo_de(*final(self), modo, agora as int) != old(self).aplicado {
                Some(alvo_de(*final(self), modo, agora as int))
            } else {
                None
            }),
    {
        let mut avisar: bool = false;
        if let Some(t) = temp {
            if t >= QUENTE {
                self.quente_ate = Some(agora + ESFRIAR);
                avisar = !self.avisou;
                self.avisou = true;
            } else if t <= FRIO {
                if let Some(ate) = self.quente_ate {
                    if agora >= ate {
                        self.quente_ate = None;
                    }
                }
            }
        }
        (avisar, self.ajustar(modo, agora))
    }
}

/// The state is never above the one that is set, nor above the highest in a
/// prefill; idle devices have automatic clocks, hot ones are below their state.
pub proof fn lei_nunca_acima(e: Estado, modo: u32, agora: int)
    requires
        modo == PSTATE_STANDARD || modo == PSTATE_PEAK,
    ensures
        alvo_de(e, modo, agora) <= base_de(e, modo),
        !e.prefill ==> alvo_de(e, modo, agora) <= modo,
        ocioso(e, agora) ==> alvo_de(e, modo, agora) == PSTATE_NONE,
        e.quente_ate is Some ==> alvo_de(e, modo, agora) < base_de(e, modo),
{
}

/// A device that was hot stays one step down for the time of cooling, and until
/// the sensor shows that it is cool.
pub proof fn lei_quente_ate_esfriar(
    e: Estado,
    quente: i64,
    t0: int,
    depois: Option<i64>,
    t1: int,
)
    requires
        0 <= t0 <= t1,
        t0 + ESFRIAR <= u64::MAX,
        t1 + ESFRIAR <= u64::MAX,
        quente >= QUENTE,
    ensures
        ({
            let a = depois_da_leitura(e, Some(quente), t0);
            let b = depois_da_leitura(a, depois, t1);
            &&& a.quente_ate is Some
            &&& t1 < t0 + ESFRIAR ==> b.quente_ate is Some
            &&& (depois is None || depois->Some_0 > FRIO) ==> b.quente_ate is Some
        }),
{
}

/// The warning is given once.
pub proof fn lei_avisa_uma_vez(e: Estado, temp: Option<i64>, agora: int)
    requires
        e.avisou,
    ensures
        depois_da_leitura(e, temp, agora).avisou,
{
}

// ---------------------------------------------------------------------------
// The sensor
// ---------------------------------------------------------------------------

/// The number that a text holds, with an optional sign.
pub open spec fn inteiro(t: Seq<char>) -> Option<int> {
    if t.len() > 0 && t[0] == '-' {
        if t.len() > 1 && t[1] == '+' {
            None
        } else {
            match numero(t.drop_first(), 0x8000_0000_0000_0000) {
                Some(n) => Some(-n),
                None => None,
            }
        }
    } else {
        numero(t, 0x7fff_ffff_ffff_ffff)
    }
}

/// The quotient, rounded towards zero.
pub open spec fn milesimo(n: int) -> int {
    if n >= 0 {
        n / 1000
    } else {
        -((-n) / 1000)
    }
}

/// The degrees that the text of a sensor, in thousandths, holds.
pub open spec fn graus_de(t: Seq<char>) -> Option<int> {
    match inteiro(aparado(t)) {
        Some(n) => Some(milesimo(n)),
        None => None,
    }
}

pub fn graus(texto: Option<&str>) -> (r: Option<i64>)
    ensures
        match (texto, r) {
            (None, x) => x is None,
            (Some(t), Some(n)) => graus_de(t@) == Some(n as int),
            (Some(t), None) => graus_de(t@) is None,
        },
{
    let t = match texto {
        Some(x) => texto_aparado(x),
        None => {
            return None;
        },
    };
    let v = caracteres(t.as_str());
    if v.len() > 0 && v[0] == '-' {
        if v.len() > 1 && v[1] == '+' {
            return None;
        }
        let mut resto = String::new();
        let mut i: usize = 1;
        while i < v.len()
            invariant
                1 <= i <= v.len(),
                resto@ =~= v@.subrange(1, i as int),
            decreases v.len() - i,
        {
            resto.push(v[i]);
            i += 1;
        }
        assert(resto@ =~= t@.drop_first());
        match le_numero(resto.as_str(), 0x8000_0000_0000_0000) {
            Some(n) => {
                let m: u64 = n / 1000;
                Some(-(m as i64))
            },
            None => None,
        }
    } else {
        match le_numero(t.as_str(), 0x7fff_ffff_ffff_ffff) {
            Some(n) => Some((n / 1000) as i64),
            None => None,
        }
    }
}

/// Whether a label is that of the hottest sensor.
pub open spec fn eh_junction(l: Option<String>) -> bool {
    match l {
        Some(t) => aparado(t@) == "junction"@,
        None => false,
    }
}

/// The first sensor with that label from (`i`, `j`) on.
pub open spec fn primeiro_sensor(s: Seq<Vec<Option<String>>>, i: int, j: int) -> Option<(int, int)>
    decreases s.len() - i, (if 0 <= i < s.len() {
            s[i]@.len() - j
        } else {
            0
        }),
{
    if i < 0 || i >= s.len() {
        None
    } else if j < s[i]@.len() {
        if eh_junction(s[i]@[j]) {
            Some((i, j))
        } else {
            primeiro_sensor(s, i, j + 1)
        }
    } else {
        primeiro_sensor(s, i + 1, 0)
    }
}

/// The directory and the number of the hottest sensor of a device; `rotulos` are
/// the labels in each of its directories.
pub fn sensor_junction(rotulos: &Vec<Vec<Option<String>>>) -> (r: Option<(usize, usize)>)
    ensures
        match r {
            Some((i, j)) => primeiro_sensor(rotulos@, 0, 0) == Some((i as int, j as int)),
            None => primeiro_sensor(rotulos@, 0, 0) is None,
        },
{
    let mut i: usize = 0;
    while i < rotulos.len()
        invariant
            i <= rotulos.len(),
            primeiro_sensor(rotulos@, 0, 0) == primeiro_sensor(rotulos@, i as int, 0),
        decreases rotulos.len() - i,
    {
        let mut j: usize = 0;
        while j < rotulos[i].len()
            invariant
                i < rotulos.len(),
                j <= rotulos@[i as int]@.len(),
                primeiro_sensor(rotulos@, 0, 0) == primeiro_sensor(
                    rotulos@,
                    i as int,
                    j as int,
                ),
            decreases rotulos@[i as int]@.len() - j,
        {
            let achou = match &rotulos[i][j] {
                Some(t) => mesmo_texto(texto_aparado(t.as_str()).as_str(), "junction"),
                None => false,
            };
            if achou {
                return Some((i, j));
            }
            j += 1;
        }
        i += 1;
    }
    None
}

/// The first name from `i` on of a node for rendering.
pub open spec fn primeiro_no(nomes: Seq<String>, i: int) -> Option<int>
    decreases nomes.len() - i,
{
    if i >= nomes.len() {
        None
    } else if comeca_com(nomes[i]@, "renderD"@) {
        Some(i)
    } else {
        primeiro_no(nomes, i + 1)
    }
}

pub fn render_node(nomes: &Vec<String>) -> (r: Option<usize>)
    ensures
        match r {
            Some(i) => primeiro_no(nomes@, 0) == Some(i as int),
            None => primeiro_no(nomes@, 0) is None,
        },
{
    let mut i: usize = 0;
    while i < nomes.len()
        invariant
            i <= nomes.len(),
            primeiro_no(nomes@, 0) == primeiro_no(nomes@, i as int),
        decreases nomes.len() - i,
    {
        if comeca(nomes[i].as_str(), "renderD") {
            return Some(i);
        }
        i += 1;
    }
    None
}

} // verus!
