//! Which device and which clock are chosen, and what the environment asks for.

use vstd::prelude::*;

use crate::vulkan::ambiente::{
    aparado, branco, eh_digito, geom_ok, geometria, geometria_ou, numero, sem_brancos_antes,
    sem_brancos_depois, so_digitos, valor_decimal, virgula,
};
use crate::vulkan::device::{
    com_monitor, comeca_com, conectado, digito_hex, eh_card, endereco, escolhido,
    escolhido_por_memoria, hexa, hexa_com, mais_livre, margem, monitor_de, orcamento, primeira_fila,
    sem_monitor, Card, Heap, QUEUE_COMPUTE,
};
use crate::vulkan::pstate::{
    alvo_de, depois_da_leitura, depois_de_aplicar, eh_junction, inteiro, milesimo, modo_de,
    primeiro_no, primeiro_sensor, Estado, PSTATE_NONE, PSTATE_PEAK, PSTATE_STANDARD,
};

verus! {

// ---------------------------------------------------------------------------
// Devices
// ---------------------------------------------------------------------------

/// The queue family of a device is one that computes, and no family before it
/// does; there is none only if no family computes.
pub proof fn lei_primeira_fila(f: Seq<u32>, i: int)
    requires
        0 <= i <= f.len(),
    ensures
        i <= primeira_fila(f, i) <= f.len(),
        primeira_fila(f, i) < f.len() ==> f[primeira_fila(f, i)] & QUEUE_COMPUTE != 0,
        forall|k: int| i <= k < primeira_fila(f, i) ==> (#[trigger] f[k]) & QUEUE_COMPUTE == 0,
    decreases f.len() - i,
{
    if i < f.len() && f[i] & QUEUE_COMPUTE == 0 {
        lei_primeira_fila(f, i + 1);
    }
}

/// What is used and free on a device is what is used and free on its heaps: of
/// two lists of heaps, the sums of both. A heap that is not local to the device
/// counts for nothing; of one that is, usage and free memory make up the budget,
/// unless more than the budget is used: nothing is free then.
pub proof fn lei_orcamento(a: Seq<Heap>, b: Seq<Heap>, h: Heap)
    ensures
        orcamento(a + b, (a + b).len() as int) == (
            orcamento(a, a.len() as int).0 + orcamento(b, b.len() as int).0,
            orcamento(a, a.len() as int).1 + orcamento(b, b.len() as int).1,
        ),
        ({
            let (u, l) = orcamento(seq![h], 1);
            if !h.device_local {
                u == 0 && l == 0
            } else if h.usage <= h.budget {
                u == h.usage && u + l == h.budget
            } else {
                u == h.usage && l == 0
            }
        }),
    decreases b.len(),
{
    reveal_with_fuel(orcamento, 2);
    if b.len() == 0 {
        assert(a + b =~= a);
    } else {
        let d = b.drop_last();
        lei_orcamento(a, d, h);
        assert((a + b).last() == b.last());
        lemma_orcamento_prefixo(a + b, a + d, (a + d).len() as int);
        lemma_orcamento_prefixo(b, d, d.len() as int);
    }
}

proof fn lemma_orcamento_prefixo(s: Seq<Heap>, t: Seq<Heap>, n: int)
    requires
        n <= s.len(),
        n <= t.len(),
        forall|i: int| 0 <= i < n ==> s[i] == t[i],
    ensures
        orcamento(s, n) == orcamento(t, n),
    decreases n,
{
    if n > 0 {
        lemma_orcamento_prefixo(s, t, n - 1);
    }
}

/// A device that is asked for by its number is taken; without a number, or with
/// one that no device has, it is the one with the most free memory, the last one
/// of those with as much, and the first device if nothing is known of any.
pub proof fn lei_device_escolhido(livres: Seq<Option<u64>>, v: Option<&str>)
    ensures
        v matches Some(t) ==> (numero(t@, usize::MAX as int) matches Some(i) ==> i < livres.len()
            ==> escolhido(livres, v) == i),
        v is None ==> escolhido(livres, v) == escolhido_por_memoria(livres),
        v matches Some(t) ==> (match numero(t@, usize::MAX as int) {
            Some(i) => i >= livres.len(),
            None => true,
        } ==> escolhido(livres, v) == escolhido_por_memoria(livres)),
        ({
            let i = escolhido_por_memoria(livres);
            &&& forall|k: int|
                0 <= k < livres.len() && (#[trigger] livres[k]) is Some ==> 0 <= i < livres.len()
                    && livres[i] is Some && livres[k]->0 <= livres[i]->0 && (i < k ==> livres[k]->0
                    < livres[i]->0)
            &&& (forall|k: int| 0 <= k < livres.len() ==> (#[trigger] livres[k]) is None) ==> i == 0
        }),
{
    lemma_mais_livre(livres, livres.len() as int);
}

proof fn lemma_mais_livre(livres: Seq<Option<u64>>, n: int)
    requires
        0 <= n <= livres.len(),
    ensures
        match mais_livre(livres, n) {
            Some((i, f)) => {
                &&& 0 <= i < n
                &&& livres[i] == Some(f)
                &&& forall|k: int|
                    0 <= k < n && (#[trigger] livres[k]) is Some ==> livres[k]->0 <= f && (i < k
                        ==> livres[k]->0 < f)
            },
            None => forall|k: int| 0 <= k < n ==> (#[trigger] livres[k]) is None,
        },
    decreases n,
{
    if n > 0 {
        lemma_mais_livre(livres, n - 1);
    }
}

/// The device without a monitor is the first one with a margin of less than a
/// gigabyte, or the first of all.
pub proof fn lei_sem_monitor(m: Seq<u64>, i: int)
    requires
        0 <= i <= m.len(),
    ensures
        ({
            let r = sem_monitor(m, i);
            ||| (i <= r < m.len() && m[r] < 1024 * 1024 * 1024 && forall|k: int|
                i <= k < r ==> (#[trigger] m[k]) >= 1024 * 1024 * 1024)
            ||| (r == 0 && forall|k: int|
                i <= k < m.len() ==> (#[trigger] m[k]) >= 1024 * 1024 * 1024)
        }),
    decreases m.len() - i,
{
    if i < m.len() && m[i] >= 1_073_741_824 {
        lei_sem_monitor(m, i + 1);
    }
}

/// Of a device without a monitor 500 MiB stay free; of one with a monitor, or of
/// which nothing is known, 2 GiB.
pub proof fn lei_margens(m: Option<bool>)
    ensures
        m == Some(false) ==> margem(m) == 500 * 1024 * 1024,
        m != Some(false) ==> margem(m) == 2 * 1024 * 1024 * 1024,
{
}

/// That an entry of a card is a connector with a monitor: its name is that of the
/// card, a hyphen and a rest, and the text of its status is `connected`.
pub open spec fn liga_monitor(card: Card, j: int, resto: Seq<char>) -> bool {
    &&& 0 <= j < card.entradas@.len()
    &&& card.entradas@[j].nome@ == card.nome@ + seq!['-'] + resto
    &&& card.entradas@[j].status matches Some(s) && aparado(s@) == "connected"@
}

/// A device drives a monitor if one of its cards has a connector with one; it
/// drives none if it has cards but no such connector; without a card nothing is
/// known.
pub proof fn lei_monitor(cards: Seq<Card>, i: int, j: int, resto: Seq<char>)
    ensures
        0 <= i < cards.len() && liga_monitor(cards[i], j, resto) && comeca_com(
            cards[i].nome@,
            "card"@,
        ) ==> monitor_de(cards) == Some(true),
        monitor_de(cards) == Some(true) ==> exists|a: int, b: int, r: Seq<char>|
            0 <= a < cards.len() && comeca_com(cards[a].nome@, "card"@)
                && #[trigger] liga_monitor(cards[a], b, r),
        monitor_de(cards) is None <==> forall|a: int|
            0 <= a < cards.len() ==> !comeca_com((#[trigger] cards[a]).nome@, "card"@),
{
    if 0 <= i < cards.len() && liga_monitor(cards[i], j, resto) && comeca_com(
        cards[i].nome@,
        "card"@,
    ) {
        let c = cards[i];
        let n = c.entradas@[j].nome@;
        let p = c.nome@.push('-');
        assert(n.take(p.len() as int) =~= p);
        assert(conectado(c.entradas@[j], c.nome@));
        assert(com_monitor(cards[i]));
    }
    if monitor_de(cards) == Some(true) {
        let a = choose|a: int| 0 <= a < cards.len() && com_monitor(#[trigger] cards[a]);
        let c = cards[a];
        let b = choose|b: int|
            0 <= b < c.entradas@.len() && conectado(#[trigger] c.entradas@[b], c.nome@);
        let n = c.entradas@[b].nome@;
        let p = c.nome@.push('-');
        let r = n.skip(p.len() as int);
        lei_comeca(n, p, r);
        assert(p + r =~= c.nome@ + seq!['-'] + r);
        assert(liga_monitor(cards[a], b, r));
    }
    if monitor_de(cards) is None {
        assert forall|a: int| 0 <= a < cards.len() implies !comeca_com(
            (#[trigger] cards[a]).nome@,
            "card"@,
        ) by {
            assert(!eh_card(cards[a]));
        }
    } else {
        let a = if monitor_de(cards) == Some(true) {
            choose|a: int| 0 <= a < cards.len() && com_monitor(#[trigger] cards[a])
        } else {
            choose|a: int| 0 <= a < cards.len() && eh_card(#[trigger] cards[a])
        };
        assert(comeca_com(cards[a].nome@, "card"@));
    }
}

/// A text starts with another if it is that one and a rest.
pub proof fn lei_comeca(t: Seq<char>, p: Seq<char>, r: Seq<char>)
    ensures
        comeca_com(p + r, p),
        comeca_com(t, p) ==> t == p + t.skip(p.len() as int),
{
    assert((p + r).take(p.len() as int) =~= p);
    if comeca_com(t, p) {
        assert(t =~= p + t.skip(p.len() as int));
    }
}

/// The value of a lower-case hexadecimal digit.
pub open spec fn valor_do_digito(c: char) -> int {
    if '0' <= c && c <= '9' {
        c as int - '0' as int
    } else {
        c as int - 'a' as int + 10
    }
}

/// The value of hexadecimal digits.
pub open spec fn valor_hexa(t: Seq<char>) -> int
    decreases t.len(),
{
    if t.len() == 0 {
        0
    } else {
        valor_hexa(t.drop_last()) * 16 + valor_do_digito(t.last())
    }
}

proof fn lemma_hexa(n: int)
    requires
        0 <= n,
    ensures
        valor_hexa(hexa(n)) == n,
        hexa(n).len() >= 1,
        forall|i: int|
            0 <= i < hexa(n).len() ==> '0' <= #[trigger] hexa(n)[i] <= '9' || 'a' <= hexa(n)[i]
                <= 'f',
    decreases n,
{
    reveal_with_fuel(valor_hexa, 2);
    if n < 16 {
        assert(seq![digito_hex(n)].drop_last() =~= Seq::empty());
    } else {
        lemma_hexa(n / 16);
        let d = hexa(n / 16);
        assert(d.push(digito_hex(n % 16)).drop_last() =~= d);
    }
}

proof fn lemma_zeros(k: nat, t: Seq<char>)
    ensures
        valor_hexa(Seq::new(k, |i: int| '0') + t) == valor_hexa(t),
    decreases k + t.len(),
{
    let z = Seq::new(k, |i: int| '0');
    if t.len() > 0 {
        assert((z + t).drop_last() =~= z + t.drop_last());
        lemma_zeros(k, t.drop_last());
    } else if k > 0 {
        let y = Seq::new((k - 1) as nat, |i: int| '0');
        assert((z + t).drop_last() =~= y + t);
        assert((z + t).last() == '0');
        lemma_zeros((k - 1) as nat, t);
    } else {
        assert(z + t =~= t);
    }
}

/// A number in hexadecimal with a width has that value and at least that many
/// digits, and no zero before it but for the width.
pub proof fn lei_hexadecimal(n: int, largura: int)
    requires
        0 <= n,
        1 <= largura,
    ensures
        valor_hexa(hexa_com(n, largura)) == n,
        hexa_com(n, largura).len() >= largura,
        hexa_com(n, largura).len() > largura ==> hexa_com(n, largura)[0] != '0',
        forall|i: int|
            0 <= i < hexa_com(n, largura).len() ==> '0' <= #[trigger] hexa_com(n, largura)[i]
                <= '9' || 'a' <= hexa_com(n, largura)[i] <= 'f',
{
    lemma_hexa(n);
    let k = if hexa(n).len() < largura {
        largura - hexa(n).len()
    } else {
        0
    };
    lemma_zeros(k as nat, hexa(n));
    if hexa(n).len() > largura {
        lemma_sem_zero(n);
    }
}

proof fn lemma_sem_zero(n: int)
    requires
        0 < n,
    ensures
        hexa(n).len() >= 1,
        hexa(n)[0] != '0',
    decreases n,
{
    if n >= 16 {
        lemma_sem_zero(n / 16);
    }
}

/// The parts of an address: four digits for the domain, a colon, two for the
/// bus, a colon, two for the device, a point, one for the function, as long as
/// these are enough.
pub proof fn lei_endereco(dominio: int, barramento: int, device: int, funcao: int)
    requires
        0 <= dominio < 0x10000,
        0 <= barramento < 0x100,
        0 <= device < 0x100,
        0 <= funcao < 0x10,
    ensures
        ({
            let e = endereco(dominio, barramento, device, funcao);
            &&& e.len() == 12
            &&& e[4] == ':' && e[7] == ':' && e[10] == '.'
            &&& valor_hexa(e.subrange(0, 4)) == dominio
            &&& valor_hexa(e.subrange(5, 7)) == barramento
            &&& valor_hexa(e.subrange(8, 10)) == device
            &&& valor_hexa(e.subrange(11, 12)) == funcao
        }),
{
    reveal_with_fuel(hexa, 5);
    lei_hexadecimal(dominio, 4);
    lei_hexadecimal(barramento, 2);
    lei_hexadecimal(device, 2);
    lei_hexadecimal(funcao, 1);
    let e = endereco(dominio, barramento, device, funcao);
    assert(e.subrange(0, 4) =~= hexa_com(dominio, 4));
    assert(e.subrange(5, 7) =~= hexa_com(barramento, 2));
    assert(e.subrange(8, 10) =~= hexa_com(device, 2));
    assert(e.subrange(11, 12) =~= hexa_com(funcao, 1));
}

// ---------------------------------------------------------------------------
// Clocks
// ---------------------------------------------------------------------------

/// The clock of a device that is in use and not hot is the highest in a prefill
/// and else the one that is set; when it is hot, one step lower: the standard
/// clock below the highest one, the automatic one below the standard one.
pub proof fn lei_relogio(e: Estado, modo: u32, agora: int)
    requires
        modo == PSTATE_STANDARD || modo == PSTATE_PEAK,
        agora < e.ultimo_uso + 2_000,
    ensures
        e.quente_ate is None && e.prefill ==> alvo_de(e, modo, agora) == PSTATE_PEAK,
        e.quente_ate is None && !e.prefill ==> alvo_de(e, modo, agora) == modo,
        e.quente_ate is Some && (e.prefill || modo == PSTATE_PEAK) ==> alvo_de(e, modo, agora)
            == PSTATE_STANDARD,
        e.quente_ate is Some && !e.prefill && modo == PSTATE_STANDARD ==> alvo_de(e, modo, agora)
            == PSTATE_NONE,
{
}

/// A look at the sensor changes nothing but the heat: below the limit nothing is
/// hot that was not, and a hot device is cool again once it has had its time and
/// the sensor shows it.
pub proof fn lei_leitura(e: Estado, t: i64, agora: int)
    requires
        0 <= agora <= u64::MAX - 10_000,
    ensures
        ({
            let d = depois_da_leitura(e, Some(t), agora);
            &&& d.aplicado == e.aplicado && d.ultimo_uso == e.ultimo_uso && d.prefill == e.prefill
            &&& t >= 95 ==> d.quente_ate == Some((agora + 10_000) as u64) && d.avisou
            &&& t < 95 ==> d.avisou == e.avisou
            &&& t < 95 && e.quente_ate is None ==> d == e
            &&& 85 < t < 95 ==> d == e
            &&& t <= 85 && e.quente_ate is Some ==> (d.quente_ate is None <==> e.quente_ate->0
                <= agora)
        }),
        depois_da_leitura(e, None, agora) == e,
{
}

/// A request that the driver takes is not made again; one that it refuses leaves
/// all as it was.
pub proof fn lei_pedido_aceito(e: Estado, modo: u32, agora: int)
    ensures
        ({
            let alvo = alvo_de(e, modo, agora);
            let d = depois_de_aplicar(e, alvo, true);
            &&& d.aplicado == alvo
            &&& alvo_de(d, modo, agora) == d.aplicado
            &&& d.quente_ate == e.quente_ate && d.avisou == e.avisou && d.ultimo_uso == e.ultimo_uso
                && d.prefill == e.prefill
            &&& depois_de_aplicar(e, alvo, false) == e
        }),
{
}

/// The clock is left alone unless the variable is not set or names a state.
pub proof fn lei_modo(v: Option<&str>)
    ensures
        v is None ==> modo_de(v) == Some(PSTATE_STANDARD),
        v matches Some(t) ==> {
            &&& t@ == "standard"@ ==> modo_de(v) == Some(PSTATE_STANDARD)
            &&& t@ == "peak"@ ==> modo_de(v) == Some(PSTATE_PEAK)
            &&& t@ != "standard"@ && t@ != "peak"@ ==> modo_de(v) is None
        },
{
    reveal_strlit("standard");
    reveal_strlit("peak");
    assert("standard"@.len() != "peak"@.len());
}

/// Thousandths of a degree are cut to degrees, towards zero.
pub proof fn lei_graus(n: int)
    ensures
        n >= 0 ==> milesimo(n) * 1000 <= n < milesimo(n) * 1000 + 1000,
        milesimo(-n) == -milesimo(n),
{
}

/// A number with a minus before it is the opposite one, and white space around
/// it makes no difference.
pub proof fn lei_sinal(t: Seq<char>)
    requires
        t.len() > 0,
        so_digitos(t),
        valor_decimal(t) <= i64::MAX,
    ensures
        inteiro(t) == Some(valor_decimal(t)),
        inteiro(seq!['-'] + t) == Some(-valor_decimal(t)),
        inteiro(seq!['+'] + t) == Some(valor_decimal(t)),
{
    assert(eh_digito(t[0]));
    assert((seq!['-'] + t).drop_first() =~= t);
    assert((seq!['+'] + t).drop_first() =~= t);
    assert((seq!['-'] + t)[1] == t[0]);
}

/// The sensor is the first one with the label of the hottest spot: none before
/// it in its directory, and none in a directory before that, has it. There is
/// none only if no sensor has the label.
pub proof fn lei_primeiro_sensor(s: Seq<Vec<Option<String>>>, i: int, j: int, a: int, b: int)
    requires
        0 <= i,
        0 <= j,
        0 <= a < s.len(),
        0 <= b < s[a]@.len(),
        a > i || (a == i && b >= j),
        eh_junction(s[a]@[b]),
    ensures
        primeiro_sensor(s, i, j) matches Some((x, y)) && 0 <= x < s.len() && 0 <= y < s[x]@.len()
            && eh_junction(s[x]@[y]) && (x < a || (x == a && y <= b)),
    decreases s.len() - i, (if 0 <= i < s.len() {
            s[i]@.len() - j
        } else {
            0
        }),
{
    if j < s[i]@.len() {
        if !eh_junction(s[i]@[j]) {
            lei_primeiro_sensor(s, i, j + 1, a, b);
        }
    } else {
        lei_primeiro_sensor(s, i + 1, 0, a, b);
    }
}

/// The node for rendering is the first name that starts with `renderD`.
pub proof fn lei_primeiro_no(nomes: Seq<String>, i: int)
    requires
        0 <= i <= nomes.len(),
    ensures
        match primeiro_no(nomes, i) {
            Some(k) => i <= k < nomes.len() && comeca_com(nomes[k]@, "renderD"@) && forall|x: int|
                i <= x < k ==> !comeca_com((#[trigger] nomes[x])@, "renderD"@),
            None => forall|x: int|
                i <= x < nomes.len() ==> !comeca_com((#[trigger] nomes[x])@, "renderD"@),
        },
    decreases nomes.len() - i,
{
    if i < nomes.len() && !comeca_com(nomes[i]@, "renderD"@) {
        lei_primeiro_no(nomes, i + 1);
    }
}

// ---------------------------------------------------------------------------
// Texts of the environment
// ---------------------------------------------------------------------------

/// One more digit makes ten times the number and the digit; a plus before the
/// digits makes no difference; what is over the limit is no number.
pub proof fn lei_numero(t: Seq<char>, c: char, max: int)
    requires
        so_digitos(t),
        eh_digito(c),
    ensures
        valor_decimal(t.push(c)) == 10 * valor_decimal(t) + (c as int - '0' as int),
        t.len() > 0 ==> (numero(t, max) is Some <==> valor_decimal(t) <= max),
        t.len() > 0 ==> numero(seq!['+'] + t, max) == numero(t, max),
        numero(t, max) matches Some(n) ==> n == valor_decimal(t),
        t.len() == 0 ==> numero(t, max) is None,
{
    assert(t.push(c).drop_last() =~= t);
    assert((seq!['+'] + t).drop_first() =~= t);
    if t.len() > 0 {
        assert(eh_digito(t[0]));
    }
}

/// A text with anything but digits after an optional plus is no number.
pub proof fn lei_nao_numero(t: Seq<char>, i: int, max: int)
    requires
        0 <= i < t.len(),
        !eh_digito(t[i]),
        i > 0 || t[i] != '+',
    ensures
        numero(t, max) is None,
{
    if t[0] == '+' {
        assert(t.drop_first()[i - 1] == t[i]);
    }
}

proof fn lemma_antes(t: Seq<char>) -> (i: int)
    ensures
        0 <= i <= t.len(),
        sem_brancos_antes(t) == t.skip(i),
        forall|k: int| 0 <= k < i ==> branco(#[trigger] t[k]),
        i < t.len() ==> !branco(t[i]),
    decreases t.len(),
{
    if t.len() > 0 && branco(t[0]) {
        let d = t.drop_first();
        let j = lemma_antes(d);
        assert(d.skip(j) =~= t.skip(j + 1));
        assert forall|k: int| 0 <= k < j + 1 implies branco(#[trigger] t[k]) by {
            if k > 0 {
                assert(t[k] == d[k - 1]);
            }
        }
        j + 1
    } else {
        assert(t.skip(0) =~= t);
        0
    }
}

proof fn lemma_depois(t: Seq<char>) -> (i: int)
    ensures
        0 <= i <= t.len(),
        sem_brancos_depois(t) == t.take(i),
        forall|k: int| i <= k < t.len() ==> branco(#[trigger] t[k]),
        i > 0 ==> !branco(t[i - 1]),
    decreases t.len(),
{
    if t.len() > 0 && branco(t.last()) {
        let d = t.drop_last();
        let j = lemma_depois(d);
        assert(d.take(j) =~= t.take(j));
        assert forall|k: int| j <= k < t.len() implies branco(#[trigger] t[k]) by {
            if k < d.len() {
                assert(t[k] == d[k]);
            }
        }
        j
    } else {
        assert(t.take(t.len() as int) =~= t);
        t.len() as int
    }
}

/// A trimmed text is the stretch of the text outside of which there is only
/// white space, and it neither starts nor ends with any.
pub proof fn lei_aparado(t: Seq<char>) -> (r: (int, int))
    ensures
        0 <= r.0 <= r.1 <= t.len(),
        aparado(t) == t.subrange(r.0, r.1),
        forall|k: int| 0 <= k < r.0 || r.1 <= k < t.len() ==> branco(#[trigger] t[k]),
        r.0 < r.1 ==> !branco(t[r.0]) && !branco(t[r.1 - 1]),
{
    let i = lemma_antes(t);
    let s = t.skip(i);
    let j = lemma_depois(s);
    assert(s.take(j) =~= t.subrange(i, i + j));
    assert forall|k: int| 0 <= k < i || i + j <= k < t.len() implies branco(#[trigger] t[k]) by {
        if k >= i + j {
            assert(t[k] == s[k - i]);
        }
    }
    if j > 0 {
        assert(s[j - 1] == t[i + j - 1]);
        if branco(t[i]) {
            assert(i < t.len());
        }
    }
    (i, i + j)
}

proof fn lemma_virgula(t: Seq<char>, i: int, p: int)
    requires
        0 <= i <= p < t.len(),
        t[p] == ',',
        forall|k: int| i <= k < p ==> #[trigger] t[k] != ',',
    ensures
        virgula(t, i) == Some(p),
    decreases p - i,
{
    if i < p {
        assert(t[i] != ',');
        lemma_virgula(t, i + 1, p);
    }
}

/// A geometry is two numbers with a comma between them: lanes, a multiple of 64
/// from 64 to 1024, and rows, from 1 to 4. In any other case it is none.
pub proof fn lei_geometria(a: Seq<char>, b: Seq<char>)
    requires
        forall|k: int| 0 <= k < a.len() ==> #[trigger] a[k] != ',',
    ensures
        ({
            let x = numero(aparado(a), u32::MAX as int);
            let y = numero(aparado(b), u32::MAX as int);
            let vale = x is Some && y is Some && x->0 % 64 == 0 && 64 <= x->0 <= 1024 && 1 <= y->0
                <= 4;
            &&& vale ==> geometria(a + seq![','] + b) == Some((x->0 as u32, y->0 as u32))
            &&& !vale ==> geometria(a + seq![','] + b) is None
        }),
{
    let t = a + seq![','] + b;
    let p = a.len() as int;
    assert forall|k: int| 0 <= k < p implies #[trigger] t[k] != ',' by {
        assert(t[k] == a[k]);
    }
    lemma_virgula(t, 0, p);
    assert(t.take(p) =~= a);
    assert(t.skip(p + 1) =~= b);
}

/// A geometry that is not set, or that is none, leaves the one that is given.
pub proof fn lei_geometria_ou(v: Option<&str>, padrao: (u32, u32))
    ensures
        v is None ==> geometria_ou(v, padrao) == padrao,
        v matches Some(t) ==> match geometria(t@) {
            Some(g) => geometria_ou(v, padrao) == g && geom_ok(g),
            None => geometria_ou(v, padrao) == padrao,
        },
{
}

} // verus!
