//! What a rollback of a verification is good for: each linear-attention layer has
//! the state and the window again that the last token that is kept left there.

use vstd::prelude::*;

use crate::vulkan::contas::sat;
use crate::vulkan::estado::{
    Buf, DeltaBufs, Knobs, LayerAux, MixerQ, Modo, ResidentState, VERIFY_TOK,
};
use crate::vulkan::gravacao::{
    cmd_saida, cmds_ate, cmds_op, passo_gravado, se_barreira, CmdM, Passo,
};
use crate::vulkan::leis_escrita::{
    alheias, alheias_menos, cmd_escreve, fora_das_ativacoes, fora_do_comum, fora_do_corrente,
    fora_dos_auxiliares, fora_dos_pesos, lemma_camada, lemma_cmds_op, lemma_conv, lemma_estado,
    lemma_ffn, lemma_fim, lemma_gates, lemma_l2, lemma_norma, op_alheia, outros_menos,
};
use crate::vulkan::leis_passo::{
    lei_estado_guardado_entre_tokens, lei_janela_guardada_entre_tokens, lemma_prefixo,
};
use crate::vulkan::leis_snapshot::{distintos, medidos};
use crate::vulkan::ops::OpM;
use crate::vulkan::plano::{
    camadas, delta_ok, op_dn_conv, op_dn_delta, op_mv, op_mv_bloco, ops_camada, ops_camadas,
    ops_conv_ate, ops_delta_verify, ops_dn_fim, ops_dn_inicio, ops_estado_ate, ops_ffn, ops_fim,
    ops_gates_ate, ops_l2_ate, ops_norma, planejavel, plano,
};
use crate::vulkan::sessao::{
    copias_do_ponto, executa_todas, independentes, lemma_copiado, lineares, rollback_da_camada,
    zeros_de, Copia,
};

verus! {

// ---------------------------------------------------------------------------
// The places of a verification
// ---------------------------------------------------------------------------

/// The state of a layer, or the window of its convolution.
pub open spec fn corrente(da: DeltaBufs, estado: bool) -> Buf {
    if estado {
        da.estado
    } else {
        da.janela
    }
}

/// Where the verification keeps what the token `t` left there.
pub open spec fn guardado(da: DeltaBufs, estado: bool, t: int) -> Buf {
    if estado {
        da.estado_snap@[t]
    } else {
        da.janela_snap@[t]
    }
}

/// That a place is no other buffer of the shard.
pub open spec fn exclusivo(st: ResidentState, l: int, estado: bool, t: int) -> bool {
    match st.aux@[l].delta {
        Some(da) => {
            let b = guardado(da, estado, t).buffer;
            &&& fora_do_comum(st, b)
            &&& forall|m: int|
                0 <= m < st.aux@.len() && m != l ==> #[trigger] fora_dos_auxiliares(st.aux@[m], b)
            &&& st.aux@[l].attn_norm.buffer != b
            &&& st.aux@[l].ffn_norm.buffer != b
            &&& fora_do_corrente(da, b)
            &&& outros_menos(
                da.estado_snap@,
                b,
                if estado {
                    t
                } else {
                    -1
                },
            )
            &&& outros_menos(
                da.janela_snap@,
                b,
                if estado {
                    -1
                } else {
                    t
                },
            )
        },
        None => false,
    }
}

/// That the linear-attention layers have their places: one for each token but the
/// last, as large as what goes there, and each a buffer of its own.
pub open spec fn separados(st: ResidentState) -> bool {
    &&& distintos(zeros_de(lineares(st.aux@)))
    &&& forall|l: int|
        0 <= l < st.aux@.len() ==> (#[trigger] st.aux@[l].delta matches Some(da)
            ==> da.estado_snap@.len() == VERIFY_TOK - 1 && da.janela_snap@.len() == VERIFY_TOK - 1)
    &&& forall|l: int, estado: bool, t: int|
        0 <= l < st.aux@.len() && st.aux@[l].delta is Some && 0 <= t < VERIFY_TOK - 1
            ==> #[trigger] exclusivo(st, l, estado, t)
}

/// The places of all layers after the token `t`, state and window of each.
pub open spec fn guardados(d: Seq<DeltaBufs>, t: int) -> Seq<Buf> {
    Seq::new(2 * d.len(), |i: int| guardado(d[i / 2], i % 2 == 0, t))
}

/// The operation in which a token changes the state of a layer, or its window.
pub open spec fn op_do_token(st: ResidentState, l: int, estado: bool, t: int) -> OpM {
    match (st.cfg.delta_net, st.a.dn, st.aux@[l].delta) {
        (Some(d), Some(b), Some(da)) => if estado {
            op_dn_delta(d, b, da, t, 1, d.value_dim(), sat(d.value_dim()))
        } else {
            op_dn_conv(d, b, da, t, 1)
        },
        _ => OpM::Embed,
    }
}

/// Where the copy to a place stands in the layer's own part of the plan.
pub open spec fn lugar_no_mixer(
    st: ResidentState,
    k: Knobs,
    l: int,
    estado: bool,
    t: int,
) -> int {
    let n = VERIFY_TOK as int;
    match (st.qw@[l].mixer, st.cfg.delta_net, st.a.dn, st.aux@[l].delta) {
        (MixerQ::Delta { attn_qkv, attn_gate, .. }, Some(d), Some(b), Some(da)) => {
            let i = ops_dn_inicio(st, k, Modo::Verify, n, d, b, attn_qkv, attn_gate).len()
                + ops_gates_ate(st, d, b, da, n).len() + 2 * t + 1;
            if estado {
                i + ops_conv_ate(d, b, da, n).len() + ops_l2_ate(st.cfg, d, b, n).len()
            } else {
                i
            }
        },
        _ => 0,
    }
}

/// Where it stands in the plan.
pub open spec fn lugar_no_plano(
    st: ResidentState,
    k: Knobs,
    l: int,
    estado: bool,
    t: int,
) -> int {
    let n = VERIFY_TOK as int;
    1 + ops_camadas(st, k, Modo::Verify, n, l).len() + ops_norma(
        st,
        n,
        st.a.b_ffn,
        st.aux@[l].attn_norm,
        l > 0,
    ).len() + lugar_no_mixer(st, k, l, estado, t)
}

/// Where the commands of an operation begin, counted from the first operation.
pub open spec fn posto(
    p: Seq<OpM>,
    bar: Seq<bool>,
    st: ResidentState,
    q: Passo,
    forcado: u32,
    prof: bool,
    i: int,
) -> int {
    (cmds_ate(p, bar, st, q, forcado, prof, i).len() + se_barreira(
        bar[i] || prof,
    ).len()) as int
}

/// Commands of a step before those of its operations.
pub open spec fn preambulo(prof: bool) -> int {
    if prof {
        2
    } else {
        0
    }
}

// ---------------------------------------------------------------------------
// What commands do to the contents of the buffers
// ---------------------------------------------------------------------------

/// That a command of a plan leads from one contents of the buffers to another:
/// what it does not write stays, no buffer changes its size, and a copy is one.
pub open spec fn cmd_leva(
    c: CmdM,
    p: Seq<OpM>,
    antes: Map<u64, Seq<u8>>,
    depois: Map<u64, Seq<u8>>,
) -> bool {
    &&& forall|b: u64| !cmd_escreve(c, p, b) ==> #[trigger] depois[b] == antes[b]
    &&& forall|b: u64| (#[trigger] depois[b]).len() == antes[b].len()
    &&& c matches CmdM::Copia { src, dst, src_off, dst_off, size } ==> depois[dst]
        == antes[dst].take(dst_off as int) + antes[src].subrange(src_off as int, src_off + size)
        + antes[dst].skip(dst_off + size)
}

/// That the commands lead through these contents, one after the other.
pub open spec fn execucao(c: Seq<CmdM>, p: Seq<OpM>, ms: Seq<Map<u64, Seq<u8>>>) -> bool {
    &&& ms.len() == c.len() + 1
    &&& forall|i: int| 0 <= i < c.len() ==> cmd_leva(#[trigger] c[i], p, ms[i], ms[i + 1])
}

proof fn lemma_tamanho(c: Seq<CmdM>, p: Seq<OpM>, ms: Seq<Map<u64, Seq<u8>>>, n: int, b: u64)
    requires
        execucao(c, p, ms),
        0 <= n <= c.len(),
    ensures
        ms[n][b].len() == ms[0][b].len(),
    decreases n,
{
    if n > 0 {
        lemma_tamanho(c, p, ms, n - 1, b);
        assert(cmd_leva(c[n - 1], p, ms[n - 1], ms[n]));
        assert(ms[n][b].len() == ms[n - 1][b].len());
    }
}

proof fn lemma_fica(
    c: Seq<CmdM>,
    p: Seq<OpM>,
    ms: Seq<Map<u64, Seq<u8>>>,
    a: int,
    n: int,
    b: u64,
)
    requires
        execucao(c, p, ms),
        0 <= a <= n <= c.len(),
        forall|j: int| a <= j < n ==> !cmd_escreve(#[trigger] c[j], p, b),
    ensures
        ms[n][b] == ms[a][b],
    decreases n - a,
{
    if a < n {
        lemma_fica(c, p, ms, a, n - 1, b);
        assert(cmd_leva(c[n - 1], p, ms[n - 1], ms[n]));
    }
}

// ---------------------------------------------------------------------------
// The plan
// ---------------------------------------------------------------------------

/// The copy to a place stands between its token and the next one, and no other
/// operation of the layer touches the place.
#[verifier::rlimit(30)]
proof fn lemma_mixer(st: ResidentState, k: Knobs, l: int, estado: bool, t: int)
    requires
        st.completo(),
        0 <= l < st.cfg.n_layer,
        st.qw@[l].mixer is Delta,
        delta_ok(st, Modo::Verify, l),
        exclusivo(st, l, estado, t),
        0 <= t < VERIFY_TOK - 1,
    ensures
        ({
            let s = ops_delta_verify(st, k, l);
            let da = st.aux@[l].delta->0;
            let x = lugar_no_mixer(st, k, l, estado, t);
            &&& 0 < x < s.len() - 1
            &&& alheias_menos(s, guardado(da, estado, t).buffer, x)
            &&& s[x - 1] == op_do_token(st, l, estado, t)
            &&& s[x] == (OpM::Copia {
                src: corrente(da, estado).buffer,
                dst: guardado(da, estado, t).buffer,
                bytes: corrente(da, estado).size,
            })
            &&& s[x + 1] == op_do_token(st, l, estado, t + 1)
        }),
{
    let n = VERIFY_TOK as int;
    match (st.qw@[l].mixer, st.cfg.delta_net, st.a.dn, st.aux@[l].delta) {
        (MixerQ::Delta { attn_qkv, attn_gate, ssm_out }, Some(d), Some(y), Some(da)) => {
            let b = guardado(da, estado, t).buffer;
            let te = if estado {
                t
            } else {
                -1
            };
            let tj = if estado {
                -1
            } else {
                t
            };
            assert(fora_dos_pesos(st.qw@[l], b));
            let s1 = ops_dn_inicio(st, k, Modo::Verify, n, d, y, attn_qkv, attn_gate);
            let s2 = ops_gates_ate(st, d, y, da, n);
            let s3 = ops_conv_ate(d, y, da, n);
            let s4 = ops_l2_ate(st.cfg, d, y, n);
            let s5 = ops_estado_ate(d, y, da, n);
            let s6 = ops_dn_fim(st, k, Modo::Verify, n, d, y, da, ssm_out);
            assert(alheias(s1, b)) by {
                reveal(op_mv);
                reveal(op_mv_bloco);
            }
            assert(alheias(s6, b)) by {
                reveal(ops_dn_fim);
                reveal(op_mv);
                reveal(op_mv_bloco);
            }
            lemma_gates(st, d, y, da, n, b);
            lemma_conv(d, y, da, n, b, tj);
            lemma_l2(st, d, y, n, b);
            lemma_estado(d, y, da, n, b, te);
            let s = s1 + s2 + s3 + s4 + s5 + s6;
            assert(s == ops_delta_verify(st, k, l));
            let o3 = s1.len() + s2.len();
            let o5 = o3 + s3.len() + s4.len();
            let x = lugar_no_mixer(st, k, l, estado, t);
            assert forall|i: int| 0 <= i < s.len() && i != x implies op_alheia(
                #[trigger] s[i],
                b,
            ) by {
                if i < s1.len() {
                    assert(s[i] == s1[i]);
                } else if i < o3 {
                    assert(s[i] == s2[i - s1.len()]);
                } else if i < o3 + s3.len() {
                    assert(s[i] == s3[i - o3]);
                } else if i < o5 {
                    assert(s[i] == s4[i - o3 - s3.len()]);
                } else if i < o5 + s5.len() {
                    assert(s[i] == s5[i - o5]);
                } else {
                    assert(s[i] == s6[i - o5 - s5.len()]);
                }
            }
            if estado {
                lei_estado_guardado_entre_tokens(d, y, da, n, t);
                lei_estado_guardado_entre_tokens(d, y, da, n, t + 1);
                assert(s[x - 1] == s5[2 * t]);
                assert(s[x] == s5[2 * (t + 1) - 1]);
                assert(s[x + 1] == s5[2 * (t + 1)]);
            } else {
                lei_janela_guardada_entre_tokens(d, y, da, n, t);
                lei_janela_guardada_entre_tokens(d, y, da, n, t + 1);
                assert(s[x - 1] == s3[2 * t]);
                assert(s[x] == s3[2 * (t + 1) - 1]);
                assert(s[x + 1] == s3[2 * (t + 1)]);
            }
        },
        _ => {},
    }
}

/// The same in the first `n` layers.
proof fn lemma_camadas(st: ResidentState, k: Knobs, l: int, estado: bool, t: int, n: int)
    requires
        st.completo(),
        0 <= l < st.cfg.n_layer,
        0 <= n <= st.cfg.n_layer,
        planejavel(st, Modo::Verify, n),
        l < n ==> st.qw@[l].mixer is Delta,
        exclusivo(st, l, estado, t),
        0 <= t < VERIFY_TOK - 1,
    ensures
        ({
            let s = ops_camadas(st, k, Modo::Verify, VERIFY_TOK as int, n);
            let da = st.aux@[l].delta->0;
            let b = guardado(da, estado, t).buffer;
            let x = lugar_no_plano(st, k, l, estado, t) - 1;
            &&& n <= l ==> alheias(s, b)
            &&& l < n ==> {
                &&& 0 < x < s.len() - 1
                &&& alheias_menos(s, b, x)
                &&& s[x - 1] == op_do_token(st, l, estado, t)
                &&& s[x] == (OpM::Copia {
                    src: corrente(da, estado).buffer,
                    dst: b,
                    bytes: corrente(da, estado).size,
                })
                &&& s[x + 1] == op_do_token(st, l, estado, t + 1)
            }
        }),
    decreases n,
{
    let nt = VERIFY_TOK as int;
    if n > 0 {
        let m = n - 1;
        lemma_camadas(st, k, l, estado, t, m);
        let da = st.aux@[l].delta->0;
        let b = guardado(da, estado, t).buffer;
        let x = lugar_no_plano(st, k, l, estado, t) - 1;
        let r = ops_camadas(st, k, Modo::Verify, nt, m);
        let c = ops_camada(st, k, Modo::Verify, nt, m);
        let s = ops_camadas(st, k, Modo::Verify, nt, n);
        assert(s == r + c);
        if st.qw@[m].mixer is Delta {
            assert(delta_ok(st, Modo::Verify, m));
        }
        if m == l {
            lemma_mixer(st, k, l, estado, t);
            let i = ops_norma(st, nt, st.a.b_ffn, st.aux@[l].attn_norm, l > 0);
            let v = ops_delta_verify(st, k, l);
            let f = ops_ffn(st, k, Modo::Verify, nt, l);
            let y = lugar_no_mixer(st, k, l, estado, t);
            lemma_norma(st, nt, st.a.b_ffn, st.aux@[l].attn_norm, l > 0, b);
            lemma_ffn(st, k, Modo::Verify, nt, l, b);
            assert(c == i + v + f);
            assert(x == r.len() + i.len() + y);
            assert(s[x - 1] == v[y - 1] && s[x] == v[y] && s[x + 1] == v[y + 1]);
            assert forall|j: int| 0 <= j < s.len() && j != x implies op_alheia(
                #[trigger] s[j],
                b,
            ) by {
                let a = j - r.len();
                if a < 0 {
                    assert(s[j] == r[j]);
                } else if a < i.len() {
                    assert(s[j] == i[a]);
                } else if a < i.len() + v.len() {
                    assert(s[j] == v[a - i.len()]);
                } else {
                    assert(s[j] == f[a - i.len() - v.len()]);
                }
            }
        } else {
            assert(fora_dos_auxiliares(st.aux@[m], b));
            lemma_camada(st, k, Modo::Verify, nt, m, b);
            assert forall|j: int| 0 <= j < s.len() && (l < n ==> j != x) implies op_alheia(
                #[trigger] s[j],
                b,
            ) by {
                if j < r.len() {
                    assert(s[j] == r[j]);
                } else {
                    assert(s[j] == c[j - r.len()]);
                }
            }
        }
    }
}

/// The same in the plan.
proof fn lemma_plano(st: ResidentState, k: Knobs, l: int, estado: bool, t: int)
    requires
        st.completo(),
        planejavel(st, Modo::Verify, camadas(st, k)),
        0 <= l < camadas(st, k),
        st.qw@[l].mixer is Delta,
        exclusivo(st, l, estado, t),
        0 <= t < VERIFY_TOK - 1,
    ensures
        ({
            let p = plano(st, k, Modo::Verify);
            let da = st.aux@[l].delta->0;
            let b = guardado(da, estado, t).buffer;
            let x = lugar_no_plano(st, k, l, estado, t);
            &&& 1 < x < p.len() - 1
            &&& alheias_menos(p, b, x)
            &&& p[x - 1] == op_do_token(st, l, estado, t)
            &&& p[x] == (OpM::Copia {
                src: corrente(da, estado).buffer,
                dst: b,
                bytes: corrente(da, estado).size,
            })
            &&& p[x + 1] == op_do_token(st, l, estado, t + 1)
        }),
{
    let nt = VERIFY_TOK as int;
    let n = camadas(st, k);
    let b = guardado(st.aux@[l].delta->0, estado, t).buffer;
    let x = lugar_no_plano(st, k, l, estado, t);
    lemma_camadas(st, k, l, estado, t, n);
    lemma_fim(st, k, Modo::Verify, nt, b);
    let p = plano(st, k, Modo::Verify);
    let c = ops_camadas(st, k, Modo::Verify, nt, n);
    let f = ops_fim(st, k, Modo::Verify, nt);
    assert(p == seq![OpM::Embed] + c + f);
    assert(p[x - 1] == c[x - 2] && p[x] == c[x - 1] && p[x + 1] == c[x]);
    assert forall|j: int| 0 <= j < p.len() && j != x implies op_alheia(#[trigger] p[j], b) by {
        if j > 0 {
            if j < 1 + c.len() {
                assert(p[j] == c[j - 1]);
            } else {
                assert(p[j] == f[j - 1 - c.len()]);
            }
        }
    }
}

// ---------------------------------------------------------------------------
// The commands
// ---------------------------------------------------------------------------

/// The first command of an operation stands where [`posto`] says, and the others
/// that come before those of the next operation write nothing.
proof fn lemma_posto(
    p: Seq<OpM>,
    bar: Seq<bool>,
    st: ResidentState,
    q: Passo,
    forcado: u32,
    prof: bool,
    i: int,
    n: int,
)
    requires
        0 <= i < n <= p.len(),
        cmds_op(i, p[i], st, q, forcado).len() == 1,
    ensures
        ({
            let c = cmds_ate(p, bar, st, q, forcado, prof, n);
            let a = posto(p, bar, st, q, forcado, prof, i);
            &&& 0 <= a < c.len()
            &&& c[a] == cmds_op(i, p[i], st, q, forcado)[0]
            &&& i + 1 < n ==> a < posto(p, bar, st, q, forcado, prof, i + 1) < c.len() + 1
            &&& i + 1 < n ==> forall|j: int|
                a < j < posto(p, bar, st, q, forcado, prof, i + 1) ==> ((
                #[trigger] c[j]) is Barreira || c[j] is Tempo)
        }),
{
    let c = cmds_ate(p, bar, st, q, forcado, prof, n);
    let x = cmds_ate(p, bar, st, q, forcado, prof, i);
    let y = cmds_ate(p, bar, st, q, forcado, prof, i + 1);
    let a = posto(p, bar, st, q, forcado, prof, i);
    let o = cmds_op(i, p[i], st, q, forcado);
    lemma_prefixo(p, bar, st, q, forcado, prof, i + 1, n);
    assert(y[a] == o[0]);
    assert(c[a] == y[a]);
    if i + 1 < n {
        let z = cmds_ate(p, bar, st, q, forcado, prof, i + 2);
        let f = se_barreira(bar[i + 1] || prof);
        lemma_prefixo(p, bar, st, q, forcado, prof, i + 2, n);
        let b = posto(p, bar, st, q, forcado, prof, i + 1);
        assert(z.len() >= b);
        assert forall|j: int| a < j < b implies ((#[trigger] c[j]) is Barreira
            || c[j] is Tempo) by {
            assert(c[j] == z[j]);
            if j < y.len() {
                assert(z[j] == y[j]);
            } else {
                assert(z[j] == f[j - y.len()]);
            }
        }
    }
}

/// After the copy to a place no command writes there.
proof fn lemma_depois(
    p: Seq<OpM>,
    bar: Seq<bool>,
    st: ResidentState,
    q: Passo,
    forcado: u32,
    prof: bool,
    x: int,
    n: int,
    b: u64,
)
    requires
        0 <= x < n <= p.len(),
        p.len() <= usize::MAX,
        fora_das_ativacoes(st.a, b),
        alheias_menos(p, b, x),
        cmds_op(x, p[x], st, q, forcado).len() == 1,
    ensures
        ({
            let c = cmds_ate(p, bar, st, q, forcado, prof, n);
            forall|j: int|
                posto(p, bar, st, q, forcado, prof, x) < j < c.len() ==> !cmd_escreve(
                    #[trigger] c[j],
                    p,
                    b,
                )
        }),
    decreases n,
{
    let i = n - 1;
    let c = cmds_ate(p, bar, st, q, forcado, prof, n);
    let r = cmds_ate(p, bar, st, q, forcado, prof, i);
    let e = se_barreira(bar[i] || prof);
    let o = cmds_op(i, p[i], st, q, forcado);
    let a = posto(p, bar, st, q, forcado, prof, x);
    if x < i {
        lemma_depois(p, bar, st, q, forcado, prof, x, i, b);
    }
    assert forall|j: int| a < j < c.len() implies !cmd_escreve(#[trigger] c[j], p, b) by {
        if j < r.len() {
            assert(c[j] == r[j]);
        } else if j < r.len() + e.len() {
            assert(c[j] == e[j - r.len()]);
        } else if j < r.len() + e.len() + o.len() {
            assert(c[j] == o[j - r.len() - e.len()]);
            assert(op_alheia(p[i], b));
            lemma_cmds_op(i, p, st, q, forcado, j - r.len() - e.len(), b);
        }
    }
}

/// The commands of a verification around the copy to a place: the one of the
/// token, then the copy, and nothing that writes the place after it.
proof fn lemma_passo(
    st: ResidentState,
    k: Knobs,
    bar: Seq<bool>,
    q: Passo,
    forcado: u32,
    prof: bool,
    l: int,
    estado: bool,
    t: int,
)
    requires
        st.completo(),
        planejavel(st, Modo::Verify, camadas(st, k)),
        plano(st, k, Modo::Verify).len() <= usize::MAX,
        exclusivo(st, l, estado, t),
        0 <= l < camadas(st, k),
        st.qw@[l].mixer is Delta,
        0 <= t < VERIFY_TOK - 1,
    ensures
        ({
            let p = plano(st, k, Modo::Verify);
            let c = passo_gravado(p, bar, st, q, Modo::Verify, forcado, prof);
            let x = lugar_no_plano(st, k, l, estado, t);
            let w = preambulo(prof) + posto(p, bar, st, q, forcado, prof, x - 1);
            let y = preambulo(prof) + posto(p, bar, st, q, forcado, prof, x);
            let da = st.aux@[l].delta->0;
            let b = guardado(da, estado, t).buffer;
            &&& 0 <= w < y < c.len()
            &&& c[w] matches CmdM::Despacha { op, parte, .. } && op == x - 1 && parte is Unica
            &&& c[y] == (CmdM::Copia {
                src: corrente(da, estado).buffer,
                dst: b,
                src_off: 0,
                dst_off: 0,
                size: corrente(da, estado).size,
            })
            &&& forall|j: int| w < j < y ==> ((#[trigger] c[j]) is Barreira || c[j] is Tempo)
            &&& forall|j: int| y < j < c.len() ==> !cmd_escreve(#[trigger] c[j], p, b)
        }),
{
    let p = plano(st, k, Modo::Verify);
    let n = p.len() as int;
    let c = passo_gravado(p, bar, st, q, Modo::Verify, forcado, prof);
    let cs = cmds_ate(p, bar, st, q, forcado, prof, n);
    let x = lugar_no_plano(st, k, l, estado, t);
    let pre = preambulo(prof);
    let b = guardado(st.aux@[l].delta->0, estado, t).buffer;
    assert(delta_ok(st, Modo::Verify, l));
    lemma_plano(st, k, l, estado, t);
    assert(p[x - 1] is Dispatch) by {
        reveal(op_dn_delta);
        reveal(op_dn_conv);
    }
    lemma_posto(p, bar, st, q, forcado, prof, x - 1, n);
    lemma_posto(p, bar, st, q, forcado, prof, x, n);
    lemma_depois(p, bar, st, q, forcado, prof, x, n, b);
    let w = pre + posto(p, bar, st, q, forcado, prof, x - 1);
    let y = pre + posto(p, bar, st, q, forcado, prof, x);
    assert forall|j: int| pre <= j < pre + cs.len() implies #[trigger] c[j] == cs[j - pre] by {}
    assert(c[w] == cs[w - pre]);
    assert(c[y] == cs[y - pre]);
    assert forall|j: int| w < j < y implies ((#[trigger] c[j]) is Barreira || c[j] is Tempo) by {
        assert(c[j] == cs[j - pre]);
    }
    assert forall|j: int| y < j < c.len() implies !cmd_escreve(#[trigger] c[j], p, b) by {
        if j < pre + cs.len() {
            assert(c[j] == cs[j - pre]);
        } else if j == pre + cs.len() + 1 {
            assert(c[j] == cmd_saida(st, q, Modo::Verify));
        }
    }
}

/// What a place holds after commands of which one copies to it and no later one
/// writes there.
proof fn lemma_guardou(
    c: Seq<CmdM>,
    p: Seq<OpM>,
    ms: Seq<Map<u64, Seq<u8>>>,
    w: int,
    y: int,
    origem: Buf,
    lugar: u64,
)
    requires
        execucao(c, p, ms),
        0 <= w < y < c.len(),
        c[y] == (CmdM::Copia {
            src: origem.buffer,
            dst: lugar,
            src_off: 0,
            dst_off: 0,
            size: origem.size,
        }),
        ms[0][origem.buffer].len() == origem.size,
        ms[0][lugar].len() == origem.size,
        forall|j: int| w < j < y ==> ((#[trigger] c[j]) is Barreira || c[j] is Tempo),
        forall|j: int| y < j < c.len() ==> !cmd_escreve(#[trigger] c[j], p, lugar),
    ensures
        ms.last()[lugar] == ms[w + 1][origem.buffer],
{
    lemma_fica(c, p, ms, w + 1, y, origem.buffer);
    assert(cmd_leva(c[y], p, ms[y], ms[y + 1]));
    lemma_tamanho(c, p, ms, y, origem.buffer);
    lemma_tamanho(c, p, ms, y, lugar);
    assert(ms[y + 1][lugar] =~= ms[y][origem.buffer]);
    lemma_fica(c, p, ms, y + 1, c.len() as int, lugar);
}

// ---------------------------------------------------------------------------
// The copies back
// ---------------------------------------------------------------------------

/// The layer of a linear-attention layer.
proof fn lemma_camada_de(aux: Seq<LayerAux>, x: int) -> (l: int)
    requires
        0 <= x < lineares(aux).len(),
    ensures
        0 <= l < aux.len(),
        aux[l].delta == Some(lineares(aux)[x]),
    decreases aux.len(),
{
    let r = aux.drop_last();
    if x < lineares(r).len() {
        lemma_camada_de(r, x)
    } else {
        aux.len() - 1
    }
}

/// Its number among them.
proof fn lemma_numero_de(aux: Seq<LayerAux>, l: int) -> (x: int)
    requires
        0 <= l < aux.len(),
        aux[l].delta is Some,
    ensures
        0 <= x < lineares(aux).len(),
        aux[l].delta == Some(lineares(aux)[x]),
    decreases aux.len(),
{
    let r = aux.drop_last();
    if l < r.len() {
        lemma_numero_de(r, l)
    } else {
        lineares(r).len() as int
    }
}

/// The copies of a rollback: each place to what is kept there.
proof fn lemma_copias(d: Seq<DeltaBufs>, t: int)
    requires
        forall|x: int|
            0 <= x < d.len() ==> t < (#[trigger] d[x]).estado_snap@.len() && t
                < d[x].janela_snap@.len(),
    ensures
        copias_do_ponto(d, t) == Seq::new(
            2 * d.len(),
            |i: int|
                Copia {
                    src: guardados(d, t)[i].buffer,
                    dst: zeros_de(d)[i].buffer,
                    size: zeros_de(d)[i].size,
                },
        ),
    decreases d.len(),
{
    let alvo = Seq::new(
        2 * d.len(),
        |i: int|
            Copia {
                src: guardados(d, t)[i].buffer,
                dst: zeros_de(d)[i].buffer,
                size: zeros_de(d)[i].size,
            },
    );
    if d.len() > 0 {
        let r = d.drop_last();
        lemma_copias(r, t);
        let u = d[d.len() - 1];
        let a = copias_do_ponto(r, t);
        let z = rollback_da_camada(u, t);
        assert(z.len() == 2);
        assert forall|i: int| 0 <= i < alvo.len() implies #[trigger] alvo[i] == (a + z)[i] by {
            if i < a.len() {
                assert(r[i / 2] == d[i / 2]);
                assert(a[i].src == guardados(r, t)[i].buffer);
            } else {
                assert(d[i / 2] == u);
            }
        }
        assert(alvo =~= a + z);
    } else {
        assert(alvo =~= copias_do_ponto(d, t));
    }
}

/// They are independent of each other.
proof fn lemma_independentes(st: ResidentState, t: int, m: Map<u64, Seq<u8>>)
    requires
        separados(st),
        0 <= t < VERIFY_TOK - 1,
        medidos(m, zeros_de(lineares(st.aux@))),
        forall|i: int|
            0 <= i < zeros_de(lineares(st.aux@)).len() ==> m[(#[trigger] guardados(
                lineares(st.aux@),
                t,
            )[i]).buffer].len() == zeros_de(lineares(st.aux@))[i].size,
    ensures
        independentes(m, copias_do_ponto(lineares(st.aux@), t)),
        copias_do_ponto(lineares(st.aux@), t).len() == 2 * lineares(st.aux@).len(),
        forall|i: int|
            0 <= i < zeros_de(lineares(st.aux@)).len() ==> (#[trigger] copias_do_ponto(
                lineares(st.aux@),
                t,
            )[i]).src == guardados(lineares(st.aux@), t)[i].buffer && copias_do_ponto(
                lineares(st.aux@),
                t,
            )[i].dst == zeros_de(lineares(st.aux@))[i].buffer,
{
    let d = lineares(st.aux@);
    let z = zeros_de(d);
    let g = guardados(d, t);
    assert forall|x: int| 0 <= x < d.len() implies t < (#[trigger] d[x]).estado_snap@.len() && t
        < d[x].janela_snap@.len() by {
        let l = lemma_camada_de(st.aux@, x);
        assert(st.aux@[l].delta == Some(d[x]));
    }
    lemma_copias(d, t);
    let c = copias_do_ponto(d, t);
    assert forall|i: int, j: int| 0 <= i < z.len() && 0 <= j < z.len() implies (
    #[trigger] g[i]).buffer != (#[trigger] z[j]).buffer by {
        let l = lemma_camada_de(st.aux@, i / 2);
        let m = lemma_camada_de(st.aux@, j / 2);
        assert(exclusivo(st, l, i % 2 == 0, t));
        if m != l {
            assert(fora_dos_auxiliares(st.aux@[m], g[i].buffer));
        }
        assert(fora_do_corrente(d[j / 2], g[i].buffer));
    }
    assert forall|i: int| 0 <= i < c.len() implies m[(#[trigger] c[i]).src].len() == c[i].size
        && m[c[i].dst].len() == c[i].size by {
        assert(m[z[i].buffer].len() == z[i].size);
        assert(m[g[i].buffer].len() == z[i].size);
    }
    assert forall|i: int, j: int| 0 <= i < j < c.len() implies (#[trigger] c[i]).dst != (
    #[trigger] c[j]).dst by {
        assert(z[i].buffer != z[j].buffer);
    }
    assert forall|i: int, j: int| 0 <= i < c.len() && 0 <= j < c.len() implies (
    #[trigger] c[i]).src != (#[trigger] c[j]).dst by {
        assert(g[i].buffer != z[j].buffer);
    }
}

/// After the copies back, what is in use holds what its place held.
proof fn lemma_volta(
    st: ResidentState,
    c: Seq<CmdM>,
    p: Seq<OpM>,
    ms: Seq<Map<u64, Seq<u8>>>,
    t: int,
    i: int,
)
    requires
        separados(st),
        0 <= t < VERIFY_TOK - 1,
        execucao(c, p, ms),
        medidos(ms[0], zeros_de(lineares(st.aux@))),
        forall|j: int|
            0 <= j < zeros_de(lineares(st.aux@)).len() ==> ms[0][(#[trigger] guardados(
                lineares(st.aux@),
                t,
            )[j]).buffer].len() == zeros_de(lineares(st.aux@))[j].size,
        0 <= i < zeros_de(lineares(st.aux@)).len(),
    ensures
        executa_todas(ms.last(), copias_do_ponto(lineares(st.aux@), t))[zeros_de(
            lineares(st.aux@),
        )[i].buffer] == ms.last()[guardados(lineares(st.aux@), t)[i].buffer],
{
    let d = lineares(st.aux@);
    let z = zeros_de(d);
    let g = guardados(d, t);
    let ult = ms.last();
    assert forall|j: int| 0 <= j < z.len() implies ult[(#[trigger] z[j]).buffer].len()
        == z[j].size by {
        lemma_tamanho(c, p, ms, c.len() as int, z[j].buffer);
    }
    assert forall|j: int| 0 <= j < z.len() implies ult[(#[trigger] g[j]).buffer].len()
        == z[j].size by {
        lemma_tamanho(c, p, ms, c.len() as int, g[j].buffer);
    }
    lemma_independentes(st, t, ult);
    let volta = copias_do_ponto(d, t);
    lemma_copiado(ult, volta, i);
    assert(volta[i].src == g[i].buffer && volta[i].dst == z[i].buffer);
}

// ---------------------------------------------------------------------------
// The law
// ---------------------------------------------------------------------------

/// A rollback that keeps `manter` tokens of a verification brings back, in every
/// linear-attention layer, the state and the window of the convolution that the
/// last of these tokens left there: what they held right after the command in
/// which that token changed them, before any command of the next one.
pub proof fn lei_rollback_volta_ao_token(
    st: ResidentState,
    k: Knobs,
    bar: Seq<bool>,
    q: Passo,
    forcado: u32,
    prof: bool,
    ms: Seq<Map<u64, Seq<u8>>>,
    l: int,
    estado: bool,
    manter: int,
)
    requires
        st.completo(),
        planejavel(st, Modo::Verify, camadas(st, k)),
        plano(st, k, Modo::Verify).len() <= usize::MAX,
        separados(st),
        0 <= l < camadas(st, k),
        st.qw@[l].mixer is Delta,
        0 < manter < VERIFY_TOK,
        medidos(ms[0], zeros_de(lineares(st.aux@))),
        forall|i: int|
            0 <= i < zeros_de(lineares(st.aux@)).len() ==> ms[0][(#[trigger] guardados(
                lineares(st.aux@),
                manter - 1,
            )[i]).buffer].len() == zeros_de(lineares(st.aux@))[i].size,
        execucao(
            passo_gravado(
                plano(st, k, Modo::Verify),
                bar,
                st,
                q,
                Modo::Verify,
                forcado,
                prof,
            ),
            plano(st, k, Modo::Verify),
            ms,
        ),
    ensures
        ({
            let p = plano(st, k, Modo::Verify);
            let c = passo_gravado(p, bar, st, q, Modo::Verify, forcado, prof);
            let x = lugar_no_plano(st, k, l, estado, manter - 1);
            let w = preambulo(prof) + posto(p, bar, st, q, forcado, prof, x - 1);
            let b = corrente(st.aux@[l].delta->0, estado).buffer;
            let fim = executa_todas(ms.last(), copias_do_ponto(lineares(st.aux@), manter - 1));
            &&& 1 < x < p.len() - 1
            &&& p[x - 1] == op_do_token(st, l, estado, manter - 1)
            &&& p[x + 1] == op_do_token(st, l, estado, manter)
            &&& 0 <= w < c.len()
            &&& c[w] matches CmdM::Despacha { op, parte, .. } && op == x - 1 && parte is Unica
            &&& fim[b] == ms[w + 1][b]
        }),
{
    let t = manter - 1;
    let p = plano(st, k, Modo::Verify);
    let c = passo_gravado(p, bar, st, q, Modo::Verify, forcado, prof);
    let x = lugar_no_plano(st, k, l, estado, t);
    let w = preambulo(prof) + posto(p, bar, st, q, forcado, prof, x - 1);
    let y = preambulo(prof) + posto(p, bar, st, q, forcado, prof, x);
    assert(delta_ok(st, Modo::Verify, l));
    let da = st.aux@[l].delta->0;
    assert(st.aux@[l].delta == Some(da));
    assert(exclusivo(st, l, estado, t));
    lemma_plano(st, k, l, estado, t);
    lemma_passo(st, k, bar, q, forcado, prof, l, estado, t);
    let d = lineares(st.aux@);
    let z = zeros_de(d);
    let g = guardados(d, t);
    let num = lemma_numero_de(st.aux@, l);
    let i = 2 * num + if estado {
        0int
    } else {
        1
    };
    assert(i / 2 == num && (i % 2 == 0) == estado);
    assert(z[i] == corrente(da, estado));
    assert(g[i] == guardado(da, estado, t));
    assert(ms[0][z[i].buffer].len() == z[i].size);
    assert(ms[0][g[i].buffer].len() == z[i].size);
    lemma_guardou(c, p, ms, w, y, z[i], g[i].buffer);
    lemma_volta(st, c, p, ms, t, i);
}

} // verus!
