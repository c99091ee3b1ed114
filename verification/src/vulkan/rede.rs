//! The network that a plan runs: what each layer makes of the residual stream, of
//! the cache and of the recurrent state, in terms of the weights.

use vstd::prelude::*;

use crate::vulkan::estado::{
    Buf, DeltaBufs, DeltaNetConfig, DnBufs, LayerAux, LayerQ, MixerQ, Modo, MtpBufs, QWeight,
    ResidentState, VERIFY_TOK,
};
use crate::vulkan::gravacao::{Hidden, Passo};
use crate::vulkan::sentido::{
    atencao, convolucao, decaimento, escalas, inteiros, janela_depois, l2, le, lido, norma,
    norma_cabecas, norma_com_porta, porta, produto, recorrencia, rotacao, soma, swiglu, trocado,
    Conta, Termo,
};

verus! {

// ---------------------------------------------------------------------------
// Parts of a layer
// ---------------------------------------------------------------------------

/// `cols` vectors of `n_in` elements times weights, which gives as many of
/// `n_out`; the vectors are quantized for it.
pub open spec fn linear(
    m: Map<u64, Termo>,
    w: QWeight,
    x: Termo,
    n_in: int,
    n_out: int,
    cols: int,
) -> Termo {
    produto(
        w.ty,
        le(m, w.gpu.todo()),
        inteiros(x, n_in * cols),
        escalas(x, n_in * cols),
        n_in,
        n_out,
        cols,
    )
}

/// The feed-forward block: `down * (silu(gate * h) * (up * h))`.
pub open spec fn ffn(
    m: Map<u64, Termo>,
    gate: QWeight,
    up: QWeight,
    down: QWeight,
    h: Termo,
    n_embd: int,
    n_ff: int,
    nt: int,
) -> Termo {
    linear(
        m,
        down,
        swiglu(
            linear(m, gate, h, n_embd, n_ff, nt),
            linear(m, up, h, n_embd, n_ff, nt),
            n_ff * nt,
        ),
        n_ff,
        n_embd,
        nt,
    )
}

/// The norm of the vectors of a block.
pub open spec fn normada(
    st: ResidentState,
    m: Map<u64, Termo>,
    x: Termo,
    w: Buf,
    nt: int,
) -> Termo {
    norma(x, le(m, w.todo()), st.cfg.n_embd as int, nt, st.cfg.rms_eps as int)
}

/// The residual stream with the output of the layer before.
pub open spec fn com_residuo(st: ResidentState, m: Map<u64, Termo>, nt: int, tem: bool) -> Termo {
    let n = st.cfg.n_embd * nt;
    let x = le(m, st.a.b_x.ate(n));
    if tem {
        soma(x, le(m, st.a.b_ffn.ate(n)), n)
    } else {
        x
    }
}

/// The contents of a buffer with a bias added to the vectors of its first `n`
/// tokens.
pub open spec fn com_bias(t: Termo, b: Option<Termo>, dim: int, n: int) -> Termo
    decreases n,
{
    match b {
        None => t,
        Some(x) => if n <= 0 {
            t
        } else {
            let r = com_bias(t, b, dim, n - 1);
            trocado(
                r,
                (n - 1) * dim * 4,
                dim * 4,
                soma(lido(r, (n - 1) * dim * 4, dim * 4), x, dim),
            )
        },
    }
}

pub open spec fn talvez_lido(m: Map<u64, Termo>, b: Option<Buf>) -> Option<Termo> {
    match b {
        Some(x) => Some(le(m, x.todo())),
        None => None,
    }
}

/// A projection of `dim` elements per token in the buffer `b`, with its bias.
pub open spec fn enviesada(
    m: Map<u64, Termo>,
    b: Buf,
    x: Termo,
    n: int,
    bias: Option<Buf>,
    dim: int,
    nt: int,
) -> Termo {
    lido(
        com_bias(trocado(m[b.buffer], 0, n * 4, x), talvez_lido(m, bias), dim, nt),
        0,
        n * 4,
    )
}

/// The three projections with their norms and biases, before the rotation.
pub open spec fn projetadas(
    st: ResidentState,
    m: Map<u64, Termo>,
    w: (QWeight, QWeight, QWeight, QWeight),
    la: LayerAux,
    h: Termo,
    nt: int,
) -> (Termo, Termo, Termo) {
    let f = st.cfg;
    let n = f.n_embd as int;
    let eps = f.rms_eps as int;
    let hd = f.head_dim as int;
    let kvd = f.kv_dim as int;
    let q0 = linear(m, w.0, h, n, f.q_out(), nt);
    let k0 = linear(m, w.1, h, n, kvd, nt);
    let v0 = linear(m, w.2, h, n, kvd, nt);
    let (q1, k1) = match (la.q_norm, la.k_norm) {
        (Some(a), Some(b)) => (
            norma_cabecas(q0, le(m, a.todo()), hd, f.n_head * nt, hd * 2, eps),
            norma_cabecas(k0, le(m, b.todo()), hd, f.n_head_kv * nt, hd, eps),
        ),
        _ => (q0, k0),
    };
    (
        enviesada(m, st.a.b_q, q1, f.q_out() * nt, la.q_bias, n, nt),
        enviesada(m, st.a.b_k, k1, kvd * nt, la.k_bias, kvd, nt),
        enviesada(m, st.a.b_v, v0, kvd * nt, la.v_bias, kvd, nt),
    )
}

/// What an attention layer makes of its normed input.
pub struct Atencao {
    /// The queries, rotated.
    pub q: Termo,
    /// The caches with the block's keys and values in them.
    pub kcache: Termo,
    pub vcache: Termo,
    /// What goes to the residual stream.
    pub saida: Termo,
}

pub open spec fn camada_de_atencao(
    st: ResidentState,
    m: Map<u64, Termo>,
    w: (QWeight, QWeight, QWeight, QWeight),
    la: LayerAux,
    h: Termo,
    slot: int,
    q: Passo,
    nt: int,
) -> Atencao {
    let f = st.cfg;
    let n = f.n_embd as int;
    let hd = f.head_dim as int;
    let kvd = f.kv_dim as int;
    let (q2, k2, v2) = projetadas(st, m, w, la, h, nt);
    let freq = le(m, st.freq_buf.todo());
    let rope = f.rope_dim as int;
    let pos = q.pos_bits as int;
    let q3 = rotacao(q2, freq, f.n_head as int, hd, rope, f.q_passo(), pos, nt);
    let k3 = rotacao(k2, freq, f.n_head_kv as int, hd, rope, hd, pos, nt);
    // The block's positions end with that of its last token.
    let off = (slot * f.ctx + (q.pos + 1 - nt)) * kvd * 4;
    let kc = trocado(m[st.a.kcache.buffer], off, kvd * nt * 4, k3);
    let vc = trocado(m[st.a.vcache.buffer], off, kvd * nt * 4, v2);
    let a = atencao(
        q3,
        lido(kc, 0, st.a.kcache.size as int),
        lido(vc, 0, st.a.vcache.size as int),
        f.n_head as int,
        f.n_head_kv as int,
        hd,
        q.pos + 1,
        kvd,
        slot * f.ctx * kvd,
        f.q_passo(),
        nt,
    );
    let g = if f.delta_net is Some {
        porta(a, q3, f.attn_dim() * nt, hd)
    } else {
        a
    };
    Atencao {
        q: q3,
        kcache: kc,
        vcache: vc,
        saida: linear(m, w.3, g, f.attn_dim(), n, nt),
    }
}

/// What a linear-attention layer makes of its normed input.
pub struct Linear {
    pub estado: Termo,
    pub janela: Termo,
    pub saida: Termo,
}

/// A linear-attention layer, all tokens of the block at once.
pub open spec fn camada_linear(
    st: ResidentState,
    m: Map<u64, Termo>,
    w: (QWeight, QWeight, QWeight),
    d: DeltaNetConfig,
    x: DnBufs,
    da: DeltaBufs,
    h: Termo,
    nt: int,
) -> Linear {
    let f = st.cfg;
    let n = f.n_embd as int;
    let eps = f.rms_eps as int;
    let cd = d.conv_dim();
    let kd = d.key_dim();
    let vd = d.value_dim();
    let hv = d.n_v_heads as int;
    let hk = d.n_k_heads as int;
    let s = d.d_state as int;
    let qkv = linear(m, w.0, h, n, cd, nt);
    let z = linear(m, w.1, h, n, vd, nt);
    let gb = decaimento(
        h,
        le(m, da.alpha.todo()),
        le(m, da.beta.todo()),
        le(m, da.adt.todo()),
        n,
        hv,
        nt,
    );
    let j = le(m, da.janela.todo());
    let nucleo = le(m, da.conv1d.todo());
    let conv = convolucao(j, qkv, nucleo, cd, d.d_conv as int, nt);
    let qn = l2(Conta::L2Query, conv, s, hk, eps, cd, nt);
    let kn = l2(Conta::L2Key, conv, s, hk, eps, cd, nt);
    // The values stand behind the queries and keys.
    let v = lido(
        trocado(m[x.conv.buffer], 0, cd * nt * 4, conv),
        2 * kd * 4,
        (cd * nt - 2 * kd) * 4,
    );
    let e = le(m, da.estado.todo());
    let o = recorrencia(Conta::Recorrencia, e, qn, kn, v, gb, s, hv, hv / hk, nt, cd);
    let hvd = d.head_v_dim as int;
    let y = norma_com_porta(o, le(m, da.norm.todo()), z, hvd, hv * nt, hvd, eps);
    Linear {
        estado: recorrencia(Conta::Estado, e, qn, kn, v, gb, s, hv, hv / hk, nt, cd),
        janela: janela_depois(j, qkv, nucleo, cd, d.d_conv as int, nt),
        saida: linear(m, w.2, y, vd, n, nt),
    }
}

/// (g, beta) of the first `n` tokens one by one; `x` holds the normed input and
/// `g` what the buffer held.
pub open spec fn decaimentos(
    st: ResidentState,
    m: Map<u64, Termo>,
    d: DeltaNetConfig,
    da: DeltaBufs,
    x: Termo,
    g: Termo,
    n: int,
) -> Termo
    decreases n,
{
    let ne = st.cfg.n_embd as int;
    let k = d.n_v_heads * 2;
    let t = n - 1;
    if n <= 0 {
        g
    } else {
        trocado(
            decaimentos(st, m, d, da, x, g, t),
            t * k * 4,
            k * 4,
            decaimento(
                lido(x, t * ne * 4, ne * 4),
                le(m, da.alpha.todo()),
                le(m, da.beta.todo()),
                le(m, da.adt.todo()),
                ne,
                d.n_v_heads as int,
                1,
            ),
        )
    }
}

/// The window after the first `n` tokens one by one, and what the buffer of the
/// convolution holds; each token sees the window that the one before left.
pub open spec fn convolucoes(
    m: Map<u64, Termo>,
    d: DeltaNetConfig,
    da: DeltaBufs,
    qkv: Termo,
    b: Termo,
    n: int,
) -> (Termo, Termo)
    decreases n,
{
    let cd = d.conv_dim();
    let t = n - 1;
    if n <= 0 {
        (le(m, da.janela.todo()), b)
    } else {
        let (j, r) = convolucoes(m, d, da, qkv, b, t);
        let x = lido(qkv, t * cd * 4, cd * 4);
        let w = le(m, da.conv1d.todo());
        (
            janela_depois(j, x, w, cd, d.d_conv as int, 1),
            trocado(r, t * cd * 4, cd * 4, convolucao(j, x, w, cd, d.d_conv as int, 1)),
        )
    }
}

/// The normed queries and keys of the first `n` tokens.
pub open spec fn normas_l2(
    st: ResidentState,
    d: DeltaNetConfig,
    conv: Termo,
    q: Termo,
    k: Termo,
    n: int,
) -> (Termo, Termo)
    decreases n,
{
    let kd = d.key_dim();
    let t = n - 1;
    if n <= 0 {
        (q, k)
    } else {
        let r = normas_l2(st, d, conv, q, k, t);
        let x = lido(conv, t * d.conv_dim() * 4, 2 * kd * 4);
        let s = d.d_state as int;
        let h = d.n_k_heads as int;
        let eps = st.cfg.rms_eps as int;
        (
            trocado(r.0, t * kd * 4, kd * 4, l2(Conta::L2Query, x, s, h, eps, 0, 1)),
            trocado(r.1, t * kd * 4, kd * 4, l2(Conta::L2Key, x, s, h, eps, 0, 1)),
        )
    }
}

/// The state after the first `n` tokens one by one, and what the buffer of the
/// output holds; each token sees the state that the one before left.
pub open spec fn recorrencias(
    m: Map<u64, Termo>,
    d: DeltaNetConfig,
    da: DeltaBufs,
    b: (Termo, Termo, Termo, Termo),
    o: Termo,
    n: int,
) -> (Termo, Termo)
    decreases n,
{
    let kd = d.key_dim();
    let vd = d.value_dim();
    let g = d.n_v_heads * 2;
    let t = n - 1;
    if n <= 0 {
        (le(m, da.estado.todo()), o)
    } else {
        let (e, r) = recorrencias(m, d, da, b, o, t);
        let q = lido(b.0, t * kd * 4, kd * 4);
        let k = lido(b.1, t * kd * 4, kd * 4);
        let v = lido(b.2, (t * d.conv_dim() + 2 * kd) * 4, vd * 4);
        let gb = lido(b.3, t * g * 4, g * 4);
        let s = d.d_state as int;
        let h = d.n_v_heads as int;
        let p = d.n_v_heads as int / d.n_k_heads as int;
        (
            recorrencia(Conta::Estado, e, q, k, v, gb, s, h, p, 1, vd),
            trocado(
                r,
                t * vd * 4,
                vd * 4,
                recorrencia(Conta::Recorrencia, e, q, k, v, gb, s, h, p, 1, vd),
            ),
        )
    }
}

/// A linear-attention layer of the verification, token by token.
pub open spec fn camada_linear_por_token(
    st: ResidentState,
    m: Map<u64, Termo>,
    w: (QWeight, QWeight, QWeight),
    d: DeltaNetConfig,
    x: DnBufs,
    da: DeltaBufs,
    h: Termo,
) -> Linear {
    let f = st.cfg;
    let nt = VERIFY_TOK as int;
    let n = f.n_embd as int;
    let cd = d.conv_dim();
    let vd = d.value_dim();
    let qkv = trocado(m[x.qkv.buffer], 0, cd * nt * 4, linear(m, w.0, h, n, cd, nt));
    let z = linear(m, w.1, h, n, vd, nt);
    let entrada = trocado(m[st.a.b_normed.buffer], 0, n * nt * 4, h);
    let gb = decaimentos(st, m, d, da, entrada, m[x.gb.buffer], nt);
    let (j, conv) = convolucoes(m, d, da, qkv, m[x.conv.buffer], nt);
    let (qn, kn) = normas_l2(st, d, conv, m[x.qn.buffer], m[x.kn.buffer], nt);
    let (e, out) = recorrencias(m, d, da, (qn, kn, conv, gb), m[x.out.buffer], nt);
    let hvd = d.head_v_dim as int;
    let y = norma_com_porta(
        lido(out, 0, vd * nt * 4),
        le(m, da.norm.todo()),
        z,
        hvd,
        d.n_v_heads * nt,
        hvd,
        f.rms_eps as int,
    );
    Linear { estado: e, janela: j, saida: linear(m, w.2, y, vd, n, nt) }
}

// ---------------------------------------------------------------------------
// Telling buffers apart
// ---------------------------------------------------------------------------

/// That what only is read has the number zero.
pub open spec fn fixos_da_camada(q: LayerQ, la: LayerAux, n: Map<u64, int>) -> bool {
    &&& n[q.ffn_gate.gpu.buffer] == 0
    &&& n[q.ffn_up.gpu.buffer] == 0
    &&& n[q.ffn_down.gpu.buffer] == 0
    &&& match q.mixer {
        MixerQ::Attn { attn_q, attn_k, attn_v, attn_output } => n[attn_q.gpu.buffer] == 0
            && n[attn_k.gpu.buffer] == 0 && n[attn_v.gpu.buffer] == 0 && n[attn_output.gpu.buffer]
            == 0,
        MixerQ::Delta { attn_qkv, attn_gate, ssm_out } => n[attn_qkv.gpu.buffer] == 0
            && n[attn_gate.gpu.buffer] == 0 && n[ssm_out.gpu.buffer] == 0,
    }
    &&& n[la.attn_norm.buffer] == 0
    &&& n[la.ffn_norm.buffer] == 0
    &&& la.q_bias matches Some(b) ==> n[b.buffer] == 0
    &&& la.k_bias matches Some(b) ==> n[b.buffer] == 0
    &&& la.v_bias matches Some(b) ==> n[b.buffer] == 0
    &&& la.q_norm matches Some(b) ==> n[b.buffer] == 0
    &&& la.k_norm matches Some(b) ==> n[b.buffer] == 0
    &&& la.delta matches Some(d) ==> n[d.conv1d.buffer] == 0 && n[d.adt.buffer] == 0
        && n[d.alpha.buffer] == 0 && n[d.beta.buffer] == 0 && n[d.norm.buffer] == 0
}

/// That the state and the window of a layer, and their copies, have numbers of
/// their own.
pub open spec fn recorrentes_da_camada(la: LayerAux, l: int, n: Map<u64, int>) -> bool {
    la.delta matches Some(d) ==> {
        &&& n[d.estado.buffer] == 100 + 10 * l
        &&& n[d.janela.buffer] == 101 + 10 * l
        &&& forall|t: int|
            0 <= t < d.estado_snap@.len() ==> n[(#[trigger] d.estado_snap@[t]).buffer] == 102 + 10
                * l
        &&& forall|t: int|
            0 <= t < d.janela_snap@.len() ==> n[(#[trigger] d.janela_snap@[t]).buffer] == 103 + 10
                * l
    }
}

/// That `n` numbers the buffers of a shard: each that is written has a number of
/// its own, and all that only are read have zero. So no two that are written are
/// the same, and none of them holds weights.
pub open spec fn numerados(st: ResidentState, n: Map<u64, int>) -> bool {
    let a = st.a;
    &&& n[a.embd_stage.buffer] == 1
    &&& n[a.kcache.buffer] == 2
    &&& n[a.vcache.buffer] == 3
    &&& n[a.b_x.buffer] == 4
    &&& n[a.b_normed.buffer] == 5
    &&& n[a.b_parciais.buffer] == 6
    &&& n[a.b_q.buffer] == 7
    &&& n[a.b_k.buffer] == 8
    &&& n[a.b_v.buffer] == 9
    &&& n[a.b_attn.buffer] == 10
    &&& n[a.b_attn_split.buffer] == 11
    &&& n[a.b_proj.buffer] == 12
    &&& n[a.b_gate.buffer] == 13
    &&& n[a.b_up.buffer] == 14
    &&& n[a.b_act.buffer] == 15
    &&& n[a.b_logits.buffer] == 16
    &&& n[a.b_ffn.buffer] == 17
    &&& n[a.b_xq.buffer] == 18
    &&& n[a.b_xd.buffer] == 19
    &&& n[a.logits_host.buffer] == 20
    &&& a.dn matches Some(d) ==> {
        &&& n[d.qkv.buffer] == 21
        &&& n[d.conv.buffer] == 22
        &&& n[d.z.buffer] == 23
        &&& n[d.gb.buffer] == 24
        &&& n[d.qn.buffer] == 25
        &&& n[d.kn.buffer] == 26
        &&& n[d.out.buffer] == 27
        &&& n[d.normed.buffer] == 28
        &&& n[d.xq.buffer] == 29
        &&& n[d.xd.buffer] == 30
    }
    &&& n[st.output_w.gpu.buffer] == 0
    &&& n[st.output_norm_buf.buffer] == 0
    &&& n[st.freq_buf.buffer] == 0
    &&& forall|l: int|
        0 <= l < st.qw@.len() ==> fixos_da_camada(#[trigger] st.qw@[l], st.aux@[l], n)
    &&& forall|l: int|
        0 <= l < st.aux@.len() ==> recorrentes_da_camada(#[trigger] st.aux@[l], l, n)
}

/// That the two contents are the same but for buffers with these numbers.
pub open spec fn so_muda(
    m: Map<u64, Termo>,
    r: Map<u64, Termo>,
    n: Map<u64, int>,
    s: spec_fn(int) -> bool,
) -> bool {
    forall|b: u64| !s(n[b]) ==> #[trigger] r[b] == m[b]
}

// ---------------------------------------------------------------------------
// A layer
// ---------------------------------------------------------------------------

/// What a layer leaves: the residual stream with what its first part adds, and
/// the output of its feed-forward block, which the next norm adds.
pub open spec fn fim_da_camada(
    st: ResidentState,
    m: Map<u64, Termo>,
    r: Map<u64, Termo>,
    l: int,
    nt: int,
    x: Termo,
    mistura: Termo,
) -> bool {
    let f = st.cfg;
    let n = f.n_embd * nt;
    let y = soma(x, mistura, n);
    let q = st.qw@[l];
    &&& le(r, st.a.b_x.ate(n)) == y
    &&& le(r, st.a.b_ffn.ate(n)) == ffn(
        m,
        q.ffn_gate,
        q.ffn_up,
        q.ffn_down,
        normada(st, m, y, st.aux@[l].ffn_norm, nt),
        f.n_embd as int,
        f.n_ff as int,
        nt,
    )
}

/// The numbers of what a layer writes: activations, and the cache or the
/// recurrent state of the layer.
pub open spec fn escritos_na_camada(k: int, l: int, atencao: bool) -> bool {
    ||| 4 <= k <= 19 && k != 16
    ||| atencao && (k == 2 || k == 3)
    ||| !atencao && (21 <= k <= 30 || 100 + 10 * l <= k <= 103 + 10 * l)
}

/// That a layer leads from one contents of the buffers to another: its first norm
/// takes the residual stream with the output of the layer before, attention or
/// linear attention adds to it what it makes of that, and the feed-forward block
/// takes the norm of the sum. Nothing else changes.
pub open spec fn camada_roda(
    st: ResidentState,
    modo: Modo,
    q: Passo,
    l: int,
    n: Map<u64, int>,
    m: Map<u64, Termo>,
    r: Map<u64, Termo>,
) -> bool {
    let f = st.cfg;
    let nt = modo.tokens(f);
    let la = st.aux@[l];
    let x = com_residuo(st, m, nt, l > 0);
    let h = normada(st, m, x, la.attn_norm, nt);
    &&& so_muda(
        m,
        r,
        n,
        |i: int| escritos_na_camada(i, l, st.qw@[l].mixer is Attn),
    )
    &&& match st.qw@[l].mixer {
        MixerQ::Attn { attn_q, attn_k, attn_v, attn_output } => {
            let w = (attn_q, attn_k, attn_v, attn_output);
            let y = camada_de_atencao(st, m, w, la, h, st.slot(l), q, nt);
            &&& r[st.a.kcache.buffer] == y.kcache
            &&& r[st.a.vcache.buffer] == y.vcache
            &&& fim_da_camada(st, m, r, l, nt, x, y.saida)
        },
        MixerQ::Delta { attn_qkv, attn_gate, ssm_out } => match (f.delta_net, st.a.dn, la.delta) {
            (Some(d), Some(b), Some(da)) => {
                let w = (attn_qkv, attn_gate, ssm_out);
                let y = if modo is Verify {
                    camada_linear_por_token(st, m, w, d, b, da, h)
                } else {
                    camada_linear(st, m, w, d, b, da, h, nt)
                };
                &&& le(r, da.estado.todo()) == y.estado
                &&& le(r, da.janela.todo()) == y.janela
                &&& fim_da_camada(st, m, r, l, nt, x, y.saida)
            },
            _ => false,
        },
    }
}

// ---------------------------------------------------------------------------
// A step
// ---------------------------------------------------------------------------

/// Layers that a shard runs: all, unless it is to stop before.
pub open spec fn camadas_rodadas(st: ResidentState, parar_em: Option<usize>) -> int {
    match parar_em {
        Some(n) if n < st.cfg.n_layer => n as int,
        _ => st.cfg.n_layer as int,
    }
}

/// That the block's embeddings, or what the shard before handed over, become the
/// residual stream.
pub open spec fn entrada_roda(
    st: ResidentState,
    modo: Modo,
    n: Map<u64, int>,
    m: Map<u64, Termo>,
    r: Map<u64, Termo>,
) -> bool {
    let k = st.cfg.n_embd * modo.tokens(st.cfg);
    &&& le(r, st.a.b_x.ate(k)) == le(m, st.a.embd_stage.ate(k))
    &&& so_muda(m, r, n, |i: int| i == 4)
}

/// The vector of the last token of a block, whose vectors are in the buffer `b`.
pub open spec fn do_ultimo_token(
    m: Map<u64, Termo>,
    b: Buf,
    x: Termo,
    dim: int,
    nt: int,
) -> Termo {
    if nt > 1 {
        lido(trocado(m[b.buffer], 0, dim * nt * 4, x), (nt - 1) * dim * 4, dim * 4)
    } else {
        x
    }
}

/// What the shard hands over. The last one: the logits, of every token in the
/// verification and else of the last token; the others: the residual stream.
pub open spec fn saida_do_passo(
    st: ResidentState,
    modo: Modo,
    m: Map<u64, Termo>,
    x: Termo,
) -> Termo {
    let f = st.cfg;
    let nt = modo.tokens(f);
    let n = f.n_embd as int;
    let v = f.vocab as int;
    if f.shard.end_layer == f.shard.n_layer_total {
        let h = normada(st, m, x, st.output_norm_buf, nt);
        if modo is Verify {
            linear(m, st.output_w, h, n, v, nt)
        } else {
            linear(m, st.output_w, do_ultimo_token(m, st.a.b_normed, h, n, nt), n, v, 1)
        }
    } else {
        x
    }
}

/// Elements of it.
pub open spec fn tamanho_da_saida(st: ResidentState, modo: Modo) -> int {
    let f = st.cfg;
    let nt = modo.tokens(f);
    if f.shard.end_layer == f.shard.n_layer_total {
        if modo is Verify {
            f.vocab * nt
        } else {
            f.vocab as int
        }
    } else {
        f.n_embd * nt
    }
}

/// That after the layers the output of the last one is added to the residual
/// stream, and that what is handed over goes to the host.
pub open spec fn fim_roda(
    st: ResidentState,
    modo: Modo,
    rodou: bool,
    n: Map<u64, int>,
    m: Map<u64, Termo>,
    r: Map<u64, Termo>,
) -> bool {
    let x = com_residuo(st, m, modo.tokens(st.cfg), rodou);
    &&& le(r, st.a.b_x.ate(st.cfg.n_embd * modo.tokens(st.cfg))) == x
    &&& le(r, st.a.logits_host.ate(tamanho_da_saida(st, modo))) == saida_do_passo(st, modo, m, x)
    &&& so_muda(
        m,
        r,
        n,
        |i: int| i == 4 || i == 5 || i == 6 || i == 16 || i == 18 || i == 19 || i == 20,
    )
}

// ---------------------------------------------------------------------------
// The prediction head
// ---------------------------------------------------------------------------

/// That `n` numbers the buffers of the prediction head, too.
pub open spec fn numerados_mtp(mb: MtpBufs, n: Map<u64, int>) -> bool {
    &&& n[mb.emb_stage.buffer] == 31
    &&& n[mb.b_emb.buffer] == 32
    &&& n[mb.b_h.buffer] == 33
    &&& n[mb.b_eh.buffer] == 34
    &&& n[mb.b_x.buffer] == 35
    &&& n[mb.b_ffn.buffer] == 36
    &&& n[mb.kcache.buffer] == 37
    &&& n[mb.vcache.buffer] == 38
    &&& n[mb.eh_proj.gpu.buffer] == 0
    &&& n[mb.attn_q.gpu.buffer] == 0
    &&& n[mb.attn_k.gpu.buffer] == 0
    &&& n[mb.attn_v.gpu.buffer] == 0
    &&& n[mb.attn_output.gpu.buffer] == 0
    &&& n[mb.ffn_gate.gpu.buffer] == 0
    &&& n[mb.ffn_up.gpu.buffer] == 0
    &&& n[mb.ffn_down.gpu.buffer] == 0
    &&& n[mb.enorm.buffer] == 0
    &&& n[mb.hnorm.buffer] == 0
    &&& n[mb.shared_head_norm.buffer] == 0
    &&& n[mb.attn_norm.buffer] == 0
    &&& n[mb.ffn_norm.buffer] == 0
    &&& mb.q_norm matches Some(b) ==> n[b.buffer] == 0
    &&& mb.k_norm matches Some(b) ==> n[b.buffer] == 0
}

/// The hidden state that feeds the head: that of a token of the last step, or the
/// head's own.
pub open spec fn oculto(st: ResidentState, mb: MtpBufs, h: Hidden, m: Map<u64, Termo>) -> Termo {
    let n = st.cfg.n_embd as int;
    match h {
        Hidden::Tronco(j) => lido(m[st.a.b_x.buffer], j * n * 4, n * 4),
        Hidden::Cabeca => lido(m[mb.b_x.buffer], 0, n * 4),
    }
}

/// The input of the head's layer: the embedding, normed with its own weight, and
/// behind it the hidden state, normed with its own, joined by a projection.
pub open spec fn juncao(st: ResidentState, mb: MtpBufs, h: Hidden, m: Map<u64, Termo>) -> Termo {
    let n = st.cfg.n_embd as int;
    let emb = normada(st, m, lido(m[mb.emb_stage.buffer], 0, n * 4), mb.enorm, 1);
    let hid = normada(st, m, oculto(st, mb, h, m), mb.hnorm, 1);
    let dois = lido(
        trocado(trocado(m[mb.b_eh.buffer], 0, n * 4, emb), n * 4, n * 4, hid),
        0,
        n * 2 * 4,
    );
    linear(m, mb.eh_proj, dois, n * 2, n, 1)
}

/// The attention layer of the head. It has a cache of its own, to which the
/// proposal's key and value go at its position.
pub open spec fn atencao_da_cabeca(
    st: ResidentState,
    mb: MtpBufs,
    m: Map<u64, Termo>,
    h: Termo,
    q: Passo,
) -> Atencao {
    let f = st.cfg;
    let n = f.n_embd as int;
    let eps = f.rms_eps as int;
    let hd = f.head_dim as int;
    let kvd = f.kv_dim as int;
    let q0 = linear(m, mb.attn_q, h, n, f.q_out(), 1);
    let k0 = linear(m, mb.attn_k, h, n, kvd, 1);
    let v0 = linear(m, mb.attn_v, h, n, kvd, 1);
    let (q1, k1) = match (mb.q_norm, mb.k_norm) {
        (Some(a), Some(b)) => (
            norma_cabecas(q0, le(m, a.todo()), hd, f.n_head as int, hd * 2, eps),
            norma_cabecas(k0, le(m, b.todo()), hd, f.n_head_kv as int, hd, eps),
        ),
        _ => (q0, k0),
    };
    let freq = le(m, st.freq_buf.todo());
    let rope = f.rope_dim as int;
    let pos = q.pos_bits as int;
    let q2 = rotacao(q1, freq, f.n_head as int, hd, rope, f.q_passo(), pos, 1);
    let k2 = rotacao(k1, freq, f.n_head_kv as int, hd, rope, hd, pos, 1);
    let off = q.pos * kvd * 4;
    let kc = trocado(m[mb.kcache.buffer], off, kvd * 4, k2);
    let vc = trocado(m[mb.vcache.buffer], off, kvd * 4, v0);
    let a = atencao(
        q2,
        lido(kc, 0, mb.kcache.size as int),
        lido(vc, 0, mb.vcache.size as int),
        f.n_head as int,
        f.n_head_kv as int,
        hd,
        q.pos + 1,
        kvd,
        0,
        f.q_passo(),
        1,
    );
    let g = if f.delta_net is Some {
        porta(a, q2, f.attn_dim(), hd)
    } else {
        a
    };
    Atencao {
        q: q2,
        kcache: kc,
        vcache: vc,
        saida: linear(m, mb.attn_output, g, f.attn_dim(), n, 1),
    }
}

/// The numbers of what a proposal writes.
pub open spec fn escritos_na_proposta(k: int) -> bool {
    5 <= k <= 16 || 18 <= k <= 20 || 32 <= k <= 38
}

/// That a proposal leads from one contents of the buffers to another: the joined
/// input goes through one layer, the head keeps the residual stream for the next
/// proposal, and the logits of its norm go to the host.
pub open spec fn proposta_roda(
    st: ResidentState,
    mb: MtpBufs,
    q: Passo,
    h: Hidden,
    n: Map<u64, int>,
    m: Map<u64, Termo>,
    r: Map<u64, Termo>,
) -> bool {
    let f = st.cfg;
    let ne = f.n_embd as int;
    let x0 = juncao(st, mb, h, m);
    let y = atencao_da_cabeca(st, mb, m, normada(st, m, x0, mb.attn_norm, 1), q);
    let x1 = soma(x0, y.saida, ne);
    let z = ffn(
        m,
        mb.ffn_gate,
        mb.ffn_up,
        mb.ffn_down,
        normada(st, m, x1, mb.ffn_norm, 1),
        ne,
        f.n_ff as int,
        1,
    );
    let x2 = soma(x1, z, ne);
    let u = normada(st, m, x2, mb.shared_head_norm, 1);
    &&& le(r, mb.b_x.ate(ne)) == x2
    &&& le(r, st.a.logits_host.ate(f.vocab as int)) == linear(
        m,
        st.output_w,
        u,
        ne,
        f.vocab as int,
        1,
    )
    &&& r[mb.kcache.buffer] == y.kcache
    &&& r[mb.vcache.buffer] == y.vcache
    &&& so_muda(m, r, n, |i: int| escritos_na_proposta(i))
}

} // verus!
