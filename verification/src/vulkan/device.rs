//! The GPUs of the machine, and how much of their memory may be used.

use vstd::prelude::*;

use crate::tokenizer::texto::mesmo_texto;
use crate::vulkan::ambiente::{aparado, caracteres, numero_da_var, texto_aparado, usize_da_var};

verus! {

pub const AMD_VENDOR_ID: u32 = 0x1002;

/// Device memory that is left free on a GPU that drives a monitor, and on the
/// others.
pub const MARGEM_COM_MONITOR: u64 = 2_147_483_648;

pub const MARGEM_SEM_MONITOR: u64 = 524_288_000;

/// The margin of a device; where nothing is known of a monitor, the larger one.
pub open spec fn margem(tem_monitor: Option<bool>) -> u64 {
    if tem_monitor == Some(false) {
        MARGEM_SEM_MONITOR
    } else {
        MARGEM_COM_MONITOR
    }
}

pub fn margem_vram_de(tem_monitor: Option<bool>) -> (r: u64)
    ensures
        r == margem(tem_monitor),
{
    match tem_monitor {
        Some(false) => MARGEM_SEM_MONITOR,
        _ => MARGEM_COM_MONITOR,
    }
}

/// The margin of each device. If none is known to drive a monitor, one of them
/// may do so again when it wakes up: then all have the larger margin.
pub fn margens_vram(monitores: &[Option<bool>]) -> (r: Vec<u64>)
    ensures
        r.len() == monitores.len(),
        forall|i: int|
            0 <= i < r.len() ==> #[trigger] r[i] == (if monitores@.contains(Some(true)) {
                margem(monitores[i])
            } else {
                MARGEM_COM_MONITOR
            }),
{
    let mut algum: bool = false;
    let mut i: usize = 0;
    while i < monitores.len()
        invariant
            i <= monitores.len(),
            algum == exists|k: int| 0 <= k < i && monitores@[k] == Some(true),
        decreases monitores.len() - i,
    {
        let m = monitores[i];
        if let Some(true) = m {
            algum = true;
        }
        i += 1;
    }
    assert(algum == monitores@.contains(Some(true)));
    let mut r: Vec<u64> = Vec::new();
    let mut j: usize = 0;
    while j < monitores.len()
        invariant
            j <= monitores.len(),
            r.len() == j,
            algum == monitores@.contains(Some(true)),
            forall|k: int|
                0 <= k < j ==> #[trigger] r[k] == (if algum {
                    margem(monitores[k])
                } else {
                    MARGEM_COM_MONITOR
                }),
        decreases monitores.len() - j,
    {
        r.push(
            if algum {
                margem_vram_de(monitores[j])
            } else {
                MARGEM_COM_MONITOR
            },
        );
        j += 1;
    }
    r
}

/// A device that is known to drive a monitor keeps the larger margin, whatever
/// the others do.
pub proof fn lei_monitor_tem_a_margem_maior(monitores: Seq<Option<bool>>, i: int)
    requires
        0 <= i < monitores.len(),
        monitores[i] != Some(false) || !monitores.contains(Some(true)),
    ensures
        (if monitores.contains(Some(true)) {
            margem(monitores[i])
        } else {
            MARGEM_COM_MONITOR
        }) == MARGEM_COM_MONITOR,
{
}

// ---------------------------------------------------------------------------
// Monitors
// ---------------------------------------------------------------------------

/// An entry in the directory of a card, with the text of its status where it
/// has one.
#[derive(Debug)]
pub struct Conector {
    pub nome: String,
    pub status: Option<String>,
}

/// An entry in the directory of a device, with what is in it.
#[derive(Debug)]
pub struct Card {
    pub nome: String,
    pub entradas: Vec<Conector>,
}

pub open spec fn comeca_com(t: Seq<char>, p: Seq<char>) -> bool {
    p.len() <= t.len() && t.take(p.len() as int) == p
}

/// Whether an entry is a connector of the card and has a monitor.
pub open spec fn conectado(c: Conector, card: Seq<char>) -> bool {
    comeca_com(c.nome@, card.push('-')) && match c.status {
        Some(s) => aparado(s@) == "connected"@,
        None => false,
    }
}

pub open spec fn eh_card(c: Card) -> bool {
    comeca_com(c.nome@, "card"@)
}

/// Whether a card has a monitor.
pub open spec fn com_monitor(c: Card) -> bool {
    eh_card(c) && exists|j: int|
        0 <= j < c.entradas@.len() && conectado(#[trigger] c.entradas@[j], c.nome@)
}

/// Whether a device drives a monitor; `None` if it has no card.
pub open spec fn monitor_de(cards: Seq<Card>) -> Option<bool> {
    if exists|i: int| 0 <= i < cards.len() && com_monitor(#[trigger] cards[i]) {
        Some(true)
    } else if exists|i: int| 0 <= i < cards.len() && eh_card(#[trigger] cards[i]) {
        Some(false)
    } else {
        None
    }
}

pub fn comeca(t: &str, p: &str) -> (r: bool)
    ensures
        r == comeca_com(t@, p@),
{
    let a = caracteres(t);
    let b = caracteres(p);
    if b.len() > a.len() {
        return false;
    }
    let mut i: usize = 0;
    while i < b.len()
        invariant
            i <= b.len() <= a.len(),
            a@ == t@,
            b@ == p@,
            forall|k: int| 0 <= k < i ==> #[trigger] a@[k] == b@[k],
        decreases b.len() - i,
    {
        if a[i] != b[i] {
            assert(t@.take(p@.len() as int)[i as int] != p@[i as int]);
            return false;
        }
        i += 1;
    }
    assert(t@.take(p@.len() as int) =~= p@);
    true
}

fn esta_conectado(c: &Conector, card: &str) -> (r: bool)
    ensures
        r == conectado(*c, card@),
{
    let mut prefixo: String = card.to_owned();
    prefixo.push('-');
    if !comeca(c.nome.as_str(), prefixo.as_str()) {
        return false;
    }
    match &c.status {
        Some(s) => {
            let t = texto_aparado(s.as_str());
            mesmo_texto(t.as_str(), "connected")
        },
        None => false,
    }
}

/// Whether a device drives a monitor. `cards` is what its directory of cards
/// holds; `None` if it cannot be read.
pub fn tem_monitor(cards: Option<&Vec<Card>>) -> (r: Option<bool>)
    ensures
        r == match cards {
            Some(c) => monitor_de(c@),
            None => None,
        },
{
    let lista = match cards {
        Some(c) => c,
        None => {
            return None;
        },
    };
    let mut algum: bool = false;
    let mut i: usize = 0;
    while i < lista.len()
        invariant
            i <= lista.len(),
            cards == Some(lista),
            algum == exists|k: int| 0 <= k < i && eh_card(#[trigger] lista@[k]),
            forall|k: int| 0 <= k < i ==> !com_monitor(#[trigger] lista@[k]),
        decreases lista.len() - i,
    {
        let c = &lista[i];
        if comeca(c.nome.as_str(), "card") {
            algum = true;
            let mut j: usize = 0;
            while j < c.entradas.len()
                invariant
                    i < lista.len(),
                    cards == Some(lista),
                    *c == lista@[i as int],
                    eh_card(*c),
                    j <= c.entradas.len(),
                    forall|k: int|
                        0 <= k < j ==> !conectado(#[trigger] c.entradas@[k], c.nome@),
                decreases c.entradas.len() - j,
            {
                if esta_conectado(&c.entradas[j], c.nome.as_str()) {
                    assert(conectado(c.entradas@[j as int], c.nome@));
                    assert(com_monitor(lista@[i as int]));
                    return Some(true);
                }
                j += 1;
            }
        }
        i += 1;
    }
    if algum {
        Some(false)
    } else {
        None
    }
}

// ---------------------------------------------------------------------------
// Devices
// ---------------------------------------------------------------------------

/// The bit of a queue family that can compute.
pub const QUEUE_COMPUTE: u32 = 2;

/// The first queue family from `i` on that can compute.
pub open spec fn primeira_fila(f: Seq<u32>, i: int) -> int
    decreases f.len() - i,
{
    if i >= f.len() || f[i] & QUEUE_COMPUTE != 0 {
        i
    } else {
        primeira_fila(f, i + 1)
    }
}

/// The queue family with which a device is used: only devices of the vendor that
/// can compute are.
pub fn fila_de_compute(vendor_id: u32, filas: &[u32]) -> (r: Option<u32>)
    requires
        filas.len() <= u32::MAX,
    ensures
        r == (if vendor_id == AMD_VENDOR_ID && primeira_fila(filas@, 0) < filas.len() {
            Some(primeira_fila(filas@, 0) as u32)
        } else {
            None
        }),
{
    if vendor_id != AMD_VENDOR_ID {
        return None;
    }
    let mut i: usize = 0;
    while i < filas.len() && filas[i] & QUEUE_COMPUTE == 0
        invariant
            i <= filas.len(),
            primeira_fila(filas@, 0) == primeira_fila(filas@, i as int),
        decreases filas.len() - i,
    {
        i += 1;
    }
    if i < filas.len() {
        Some(i as u32)
    } else {
        None
    }
}

/// A memory heap: whether it is local to the device, its budget and its usage.
#[derive(Clone, Copy, Debug, PartialEq, Eq, Structural)]
pub struct Heap {
    pub device_local: bool,
    pub budget: u64,
    pub usage: u64,
}

pub open spec fn livre_de(h: Heap) -> int {
    if h.device_local && h.budget > h.usage {
        h.budget - h.usage
    } else {
        0
    }
}

pub open spec fn usada_de(h: Heap) -> int {
    if h.device_local {
        h.usage as int
    } else {
        0
    }
}

/// Usage and free memory of the first `n` heaps that are local to the device.
pub open spec fn orcamento(h: Seq<Heap>, n: int) -> (int, int)
    decreases n,
{
    if n <= 0 {
        (0, 0)
    } else {
        let (u, l) = orcamento(h, n - 1);
        (u + usada_de(h[n - 1]), l + livre_de(h[n - 1]))
    }
}

proof fn lemma_orcamento(h: Seq<Heap>, n: int, m: int)
    requires
        0 <= n <= m <= h.len(),
    ensures
        0 <= orcamento(h, n).0 <= orcamento(h, m).0,
        0 <= orcamento(h, n).1 <= orcamento(h, m).1,
    decreases m,
{
    if n < m {
        lemma_orcamento(h, n, m - 1);
    } else if n > 0 {
        lemma_orcamento(h, n - 1, n - 1);
    }
}

/// What the process uses of the memory of a device, and what is free for it.
pub fn orcamento_vram(heaps: &[Heap]) -> (r: (u64, u64))
    requires
        orcamento(heaps@, heaps@.len() as int).0 <= u64::MAX,
        orcamento(heaps@, heaps@.len() as int).1 <= u64::MAX,
    ensures
        (r.0 as int, r.1 as int) == orcamento(heaps@, heaps@.len() as int),
{
    let mut usada: u64 = 0;
    let mut livre: u64 = 0;
    let mut i: usize = 0;
    while i < heaps.len()
        invariant
            i <= heaps.len(),
            (usada as int, livre as int) == orcamento(heaps@, i as int),
            orcamento(heaps@, heaps@.len() as int).0 <= u64::MAX,
            orcamento(heaps@, heaps@.len() as int).1 <= u64::MAX,
        decreases heaps.len() - i,
    {
        proof {
            lemma_orcamento(heaps@, i + 1, heaps@.len() as int);
        }
        let h = heaps[i];
        if h.device_local {
            livre = livre + h.budget.saturating_sub(h.usage);
            usada = usada + h.usage;
        }
        i += 1;
    }
    (usada, livre)
}

/// A GPU that can be used.
#[derive(Debug)]
pub struct VulkanPhysicalDevice {
    pub handle: u64,
    pub name: String,
    pub subgroup_size: u32,
    pub queue_family: u32,
    pub margem_vram: u64,
    pub pci: Option<String>,
}

impl VulkanPhysicalDevice {
    pub fn name(&self) -> (r: &str)
        ensures
            r@ == self.name@,
    {
        self.name.as_str()
    }

    /// Device memory that has to stay free.
    pub fn margem_vram(&self) -> (r: u64)
        ensures
            r == self.margem_vram,
    {
        self.margem_vram
    }

    pub fn subgroup_size(&self) -> (r: u32)
        ensures
            r == self.subgroup_size,
    {
        self.subgroup_size
    }
}

/// The last of the devices with most free memory among the first `n`; those that
/// do not tell do not count.
pub open spec fn mais_livre(livres: Seq<Option<u64>>, n: int) -> Option<(int, u64)>
    decreases n,
{
    if n <= 0 {
        None
    } else {
        let m = mais_livre(livres, n - 1);
        match (livres[n - 1], m) {
            (Some(f), Some((_, g))) => if f >= g {
                Some((n - 1, f))
            } else {
                m
            },
            (Some(f), None) => Some((n - 1, f)),
            (None, _) => m,
        }
    }
}

/// The device to use: the one that `LLAMA_RS_GPU` names, if there is one, or
/// else the one with most free memory.
pub open spec fn escolhido(livres: Seq<Option<u64>>, v: Option<&str>) -> int {
    match numero_da_var(v, usize::MAX as int) {
        Some(i) => if i < livres.len() {
            i
        } else {
            escolhido_por_memoria(livres)
        },
        None => escolhido_por_memoria(livres),
    }
}

pub open spec fn escolhido_por_memoria(livres: Seq<Option<u64>>) -> int {
    match mais_livre(livres, livres.len() as int) {
        Some((i, _)) => i,
        None => 0,
    }
}

/// No device has more free memory than the one that is chosen.
pub proof fn lei_escolhido_tem_mais_memoria(livres: Seq<Option<u64>>, n: int, k: int)
    requires
        0 <= k < n <= livres.len(),
        livres[k] is Some,
    ensures
        mais_livre(livres, n) matches Some((i, f)) && 0 <= i < n && livres[i] == Some(f)
            && livres[k]->Some_0 <= f,
    decreases n,
{
    if n - 1 > k {
        lei_escolhido_tem_mais_memoria(livres, n - 1, k);
    } else if mais_livre(livres, n - 1) is Some {
        lemma_mais_livre(livres, n - 1);
    }
}

proof fn lemma_mais_livre(livres: Seq<Option<u64>>, n: int)
    requires
        0 <= n <= livres.len(),
    ensures
        mais_livre(livres, n) matches Some((i, f)) ==> 0 <= i < n && livres[i] == Some(f),
    decreases n,
{
    if n > 0 {
        lemma_mais_livre(livres, n - 1);
    }
}

pub fn pick_device(livres: &[Option<u64>], v: Option<&str>) -> (r: usize)
    ensures
        r == escolhido(livres@, v),
{
    if let Some(i) = usize_da_var(v) {
        if i < livres.len() {
            return i;
        }
    }
    let mut melhor: Option<(usize, u64)> = None;
    let mut i: usize = 0;
    while i < livres.len()
        invariant
            i <= livres.len(),
            match melhor {
                Some((k, f)) => mais_livre(livres@, i as int) == Some((k as int, f)),
                None => mais_livre(livres@, i as int) is None,
            },
        decreases livres.len() - i,
    {
        if let Some(f) = livres[i] {
            let troca = match melhor {
                Some((_, g)) => f >= g,
                None => true,
            };
            if troca {
                melhor = Some((i, f));
            }
        }
        i += 1;
    }
    match melhor {
        Some((k, _)) => k,
        None => 0,
    }
}

/// The device that drives no monitor, as its margin shows, or else the first
/// one.
pub open spec fn sem_monitor(margens: Seq<u64>, i: int) -> int
    decreases margens.len() - i,
{
    if i >= margens.len() {
        0
    } else if margens[i] < 1_073_741_824 {
        i
    } else {
        sem_monitor(margens, i + 1)
    }
}

pub fn device_sem_monitor(margens: &[u64]) -> (r: usize)
    ensures
        r == sem_monitor(margens@, 0),
{
    let mut i: usize = 0;
    while i < margens.len()
        invariant
            i <= margens.len(),
            sem_monitor(margens@, 0) == sem_monitor(margens@, i as int),
        decreases margens.len() - i,
    {
        if margens[i] < 1_073_741_824 {
            return i;
        }
        i += 1;
    }
    0
}

// ---------------------------------------------------------------------------
// Addresses
// ---------------------------------------------------------------------------

/// The hexadecimal digit of a number below sixteen.
pub open spec fn digito_hex(n: int) -> char {
    if n == 0 {
        '0'
    } else if n == 1 {
        '1'
    } else if n == 2 {
        '2'
    } else if n == 3 {
        '3'
    } else if n == 4 {
        '4'
    } else if n == 5 {
        '5'
    } else if n == 6 {
        '6'
    } else if n == 7 {
        '7'
    } else if n == 8 {
        '8'
    } else if n == 9 {
        '9'
    } else if n == 10 {
        'a'
    } else if n == 11 {
        'b'
    } else if n == 12 {
        'c'
    } else if n == 13 {
        'd'
    } else if n == 14 {
        'e'
    } else {
        'f'
    }
}

/// A number in hexadecimal.
pub open spec fn hexa(n: int) -> Seq<char>
    decreases n,
{
    if n < 16 {
        seq![digito_hex(n)]
    } else {
        hexa(n / 16).push(digito_hex(n % 16))
    }
}

/// With zeros before it up to the width.
pub open spec fn hexa_com(n: int, largura: int) -> Seq<char> {
    Seq::new(
        (if hexa(n).len() < largura {
            largura - hexa(n).len()
        } else {
            0
        }) as nat,
        |i: int| '0',
    ) + hexa(n)
}

fn digito(n: u32) -> (r: char)
    requires
        n < 16,
    ensures
        r == digito_hex(n as int),
{
    match n {
        0 => '0',
        1 => '1',
        2 => '2',
        3 => '3',
        4 => '4',
        5 => '5',
        6 => '6',
        7 => '7',
        8 => '8',
        9 => '9',
        10 => 'a',
        11 => 'b',
        12 => 'c',
        13 => 'd',
        14 => 'e',
        _ => 'f',
    }
}

fn digitos_hex(n: u32) -> (r: Vec<char>)
    ensures
        r@ == hexa(n as int),
    decreases n,
{
    if n < 16 {
        let v = vec![digito(n)];
        assert(v@ =~= hexa(n as int));
        v
    } else {
        let mut v = digitos_hex(n / 16);
        v.push(digito(n % 16));
        v
    }
}

fn poe_hex(s: &mut String, n: u32, largura: usize)
    ensures
        final(s)@ == old(s)@ + hexa_com(n as int, largura as int),
{
    let v = digitos_hex(n);
    let ghost s0 = s@;
    let mut k: usize = v.len();
    while k < largura
        invariant
            v@ == hexa(n as int),
            v.len() <= k,
            k <= largura || k == v.len(),
            s@ =~= s0 + Seq::new((k - v.len()) as nat, |i: int| '0'),
        decreases largura - k,
    {
        s.push('0');
        k += 1;
    }
    let ghost s1 = s@;
    let mut i: usize = 0;
    while i < v.len()
        invariant
            i <= v.len(),
            v@ == hexa(n as int),
            s@ =~= s1 + v@.take(i as int),
        decreases v.len() - i,
    {
        s.push(v[i]);
        i += 1;
    }
    assert(s@ =~= s0 + hexa_com(n as int, largura as int));
}

/// The PCI address of a device, as the system writes it.
pub open spec fn endereco(dominio: int, barramento: int, device: int, funcao: int) -> Seq<char> {
    hexa_com(dominio, 4).push(':') + hexa_com(barramento, 2).push(':') + hexa_com(device, 2).push(
        '.',
    ) + hexa_com(funcao, 1)
}

pub fn pci_de(dominio: u32, barramento: u32, device: u32, funcao: u32) -> (r: String)
    ensures
        r@ == endereco(dominio as int, barramento as int, device as int, funcao as int),
{
    let mut s = String::new();
    poe_hex(&mut s, dominio, 4);
    s.push(':');
    poe_hex(&mut s, barramento, 2);
    s.push(':');
    poe_hex(&mut s, device, 2);
    s.push('.');
    poe_hex(&mut s, funcao, 1);
    assert(s@ =~= endereco(dominio as int, barramento as int, device as int, funcao as int));
    s
}

} // verus!
