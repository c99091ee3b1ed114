//! Makes the plan of a block of tokens.

use vstd::prelude::*;

use crate::vulkan::ambiente::{gemm_largura_ok, geom_ok};
use crate::vulkan::contas::{ou, teto_u32, teto_usize, u32_ou, u32_sat};
use crate::vulkan::erro::{falta_recurso, sem_recurso, MatmulError};
use crate::vulkan::estado::{
    Buf, Cfg, DeltaBufs, DeltaNetConfig, DnBufs, Knobs, MixerQ, Modo, QWeight, ResidentState,
    GEMM_LINHAS_POR_WG, MATVEC_NUM_ROWS, NORM_P1_WG, VERIFY_TOK,
};
use crate::vulkan::ops::{plano_de, Despacho, Faixa, GgmlType, OpM, PipeId, PlannedOp, PushSpec};
use crate::vulkan::plano::{
    cabe, cabe_delta, cabe_n, camadas, delta_ok, desloc_da_camada, desp, grupos, grupos_norma,
    grupos_q, lemma_cabe, matvec_de, op_atencao, op_bias, op_dn_conv, op_dn_delta, op_dn_gates,
    op_dn_l2, op_mv, op_mv_bloco, op_qk_norm, op_quantiza, op_rope, op_rope_k, op_saida_atencao,
    op_swiglu, ops_atencao, ops_bias, ops_camada, ops_camadas, ops_conv_ate, ops_delta,
    ops_delta_verify, ops_dn_fim, ops_dn_inicio, ops_estado_ate, ops_ffn, ops_fim, ops_gates_ate,
    ops_l2_ate, ops_norma, ops_projecoes, ops_qk, planejavel, plano, rodou,
};
use crate::vulkan::shard::{lemma_atencoes, slot_de, slots_kv};

verus! {

/// A dispatch of the plan.
pub(crate) fn mk_op(
    pipe: PipeId,
    binds: Vec<Faixa>,
    groups: u32,
    groups_y: u32,
    push: PushSpec,
) -> (r: PlannedOp)
    ensures
        r@ == desp(pipe, binds@, groups, groups_y, push@),
{
    PlannedOp::Dispatch(Despacho { pipe, binds, groups, groups_y, push })
}

/// Appends an operation to the plan.
pub(crate) fn poe(plan: &mut Vec<PlannedOp>, op: PlannedOp)
    ensures
        plano_de(final(plan)@) == plano_de(old(plan)@).push(op@),
{
    plan.push(op);
    assert(plano_de(plan@) =~= plano_de(old(plan)@).push(op@));
}

/// Workgroups of 64 lanes that cover `n` elements.
pub fn groups_for(n: usize) -> (r: u32)
    ensures
        r == grupos(n as int),
{
    teto_usize(n, 64) as u32
}

/// Workgroups of 64 lanes, each lane with a block of 32 of the `n` elements.
pub(crate) fn groups_q(n: usize) -> (r: u32)
    ensures
        r == grupos_q(n as int),
{
    teto_u32((n / 32) as u32, 64)
}

pub(crate) fn groups_norma(c: &Cfg) -> (r: u32)
    ensures
        r == grupos_norma(*c),
{
    let n: u32 = teto_u32(c.n_embd as u32, 256);
    if n < 1 {
        1
    } else if n > NORM_P1_WG {
        NORM_P1_WG
    } else {
        n
    }
}

pub(crate) fn um_se(b: bool) -> (r: u32)
    ensures
        r == (if b {
            1u32
        } else {
            0u32
        }),
{
    if b {
        1
    } else {
        0
    }
}

/// Rows of a workgroup of the K-quant kernels.
pub(crate) fn rows_kq(g: (u32, u32)) -> (r: usize)
    requires
        geom_ok(g),
    ensures
        r == (g.0 / 64) * g.1,
        r > 0,
{
    proof {
        assert(1 <= g.0 / 64 <= 16);
        assert(0 < (g.0 / 64) * g.1 <= 16 * 4) by (nonlinear_arith)
            requires
                1 <= g.0 / 64 <= 16,
                1 <= g.1 <= 4,
        ;
    }
    (g.0 / 64 * g.1) as usize
}

/// A block of tokens for which a plan is being made.
pub(crate) struct Bloco<'a> {
    pub st: &'a ResidentState,
    pub k: Knobs,
    pub modo: Modo,
    pub n_tok: usize,
}

impl<'a> Bloco<'a> {
    pub(crate) open spec fn ok(self) -> bool {
        &&& self.st.completo()
        &&& cabe(*self.st, self.n_tok as int)
        &&& geom_ok(self.k.geom)
        &&& geom_ok(self.k.geom_batch)
        &&& self.n_tok == self.modo.tokens(self.st.cfg)
    }

    fn nt(&self) -> (r: u32)
        ensures
            r == ou(self.n_tok as int, 1),
    {
        u32_ou(self.n_tok, 1)
    }

    /// Elements of a vector of every token of the block.
    fn por_token(&self, n: usize) -> (r: usize)
        requires
            self.n_tok >= 1,
            cabe_n(n as int, self.n_tok as int),
        ensures
            r == n * self.n_tok,
            r * 4 <= usize::MAX,
    {
        proof {
            lemma_cabe(n as int, self.n_tok as int, self.n_tok as int);
        }
        n * self.n_tok
    }

    fn attn_dim(&self) -> (r: usize)
        requires
            self.ok(),
        ensures
            r == self.st.cfg.attn_dim(),
    {
        let c = &self.st.cfg;
        if c.delta_net.is_some() {
            proof {
                assert(c.head_dim * c.n_head >= 0) by (nonlinear_arith);
                lemma_cabe(c.attn_dim(), self.n_tok as int, 1);
            }
            c.head_dim * c.n_head
        } else {
            c.n_embd
        }
    }

    fn q_out(&self) -> (r: usize)
        requires
            self.ok(),
        ensures
            r == self.st.cfg.q_out(),
    {
        let c = &self.st.cfg;
        if c.delta_net.is_some() {
            proof {
                assert(c.head_dim * c.n_head >= 0) by (nonlinear_arith);
                lemma_cabe(c.q_out(), self.n_tok as int, 1);
            }
            c.head_dim * c.n_head * 2
        } else {
            c.n_embd
        }
    }

    /// The pipeline and the rows of its workgroups.
    fn matvec(&self, cols: usize, ty: GgmlType) -> (r: (PipeId, usize))
        requires
            self.ok(),
        ensures
            (r.0, r.1 as int) == matvec_de(self.k, self.modo, cols as int, ty),
            r.1 > 0,
    {
        let l: Modo = if cols <= 1 {
            Modo::Decode
        } else {
            match self.modo {
                Modo::Verify => Modo::Verify,
                _ => Modo::Batch,
            }
        };
        let kq: usize = if l == Modo::Batch {
            rows_kq(self.k.geom_batch)
        } else {
            rows_kq(self.k.geom)
        };
        if l == Modo::Batch && self.k.gemm && ty == GgmlType::Q4_K && gemm_largura_ok(cols) {
            return (PipeId::MulMmQ4K, GEMM_LINHAS_POR_WG as usize);
        }
        match ty {
            GgmlType::Q8_0 => (
                match l {
                    Modo::Decode => PipeId::Matvec,
                    Modo::Batch => PipeId::MatvecB,
                    Modo::Verify => PipeId::MatvecV,
                },
                MATVEC_NUM_ROWS as usize,
            ),
            GgmlType::Q5_K => (
                match l {
                    Modo::Decode => PipeId::MatvecQ5K,
                    Modo::Batch => PipeId::MatvecQ5KB,
                    Modo::Verify => PipeId::MatvecQ5KV,
                },
                kq,
            ),
            GgmlType::Q4_K => (
                match l {
                    Modo::Decode => PipeId::MatvecQ4K,
                    Modo::Batch => PipeId::MatvecQ4KB,
                    Modo::Verify => PipeId::MatvecQ4KV,
                },
                kq,
            ),
            _ => (
                match l {
                    Modo::Decode => PipeId::MatvecQ6K,
                    Modo::Batch => PipeId::MatvecQ6KB,
                    Modo::Verify => PipeId::MatvecQ6KV,
                },
                8,
            ),
        }
    }

    fn mv_gen(
        &self,
        w: &QWeight,
        dst: &Buf,
        xq: &Buf,
        xd: &Buf,
        cols: usize,
        n_in: usize,
        n_out: usize,
    ) -> (r: PlannedOp)
        requires
            self.ok(),
            cols >= 1,
            cabe_n(n_out as int, cols as int),
        ensures
            r@ == op_mv(
                self.k,
                self.modo,
                *w,
                *dst,
                *xq,
                *xd,
                cols as int,
                n_in as int,
                n_out as int,
            ),
    {
        proof {
            reveal(op_mv);
        }
        let (pipe, rows) = self.matvec(cols, w.ty);
        proof {
            lemma_cabe(n_out as int, cols as int, cols as int);
        }
        let binds = vec![
            w.gpu.inteiro(),
            xq.inteiro(),
            xd.inteiro(),
            dst.trecho(0, n_out * cols),
            xd.inteiro(),
        ];
        mk_op(
            pipe,
            binds,
            u32_sat(teto_usize(n_out, rows)),
            1,
            PushSpec::Static(vec![n_in as u32, n_out as u32, 0, 0]),
        )
    }

    fn mv(&self, w: &QWeight, dst: &Buf, n_in: usize, n_out: usize) -> (r: PlannedOp)
        requires
            self.ok(),
            cabe_n(n_out as int, self.n_tok as int),
        ensures
            r@ == op_mv_bloco(
                *self.st,
                self.k,
                self.modo,
                self.n_tok as int,
                *w,
                *dst,
                n_in as int,
                n_out as int,
            ),
    {
        proof {
            reveal(op_mv_bloco);
        }
        self.mv_gen(w, dst, &self.st.a.b_xq, &self.st.a.b_xd, self.n_tok, n_in, n_out)
    }

    fn norma(&self, plan: &mut Vec<PlannedOp>, res: &Buf, w: &Buf, tem: bool)
        requires
            self.ok(),
        ensures
            plano_de(final(plan)@) == plano_de(old(plan)@) + ops_norma(
                *self.st,
                self.n_tok as int,
                *res,
                *w,
                tem,
            ),
    {
        proof {
            reveal(ops_norma);
        }
        let c = &self.st.cfg;
        let a = &self.st.a;
        let n: usize = self.por_token(c.n_embd);
        let p1 = mk_op(
            PipeId::NormFused,
            vec![a.b_x.trecho(0, n), res.trecho(0, n), a.b_parciais.inteiro()],
            groups_norma(c),
            self.nt(),
            PushSpec::Static(vec![u32_ou(c.n_embd, 0), um_se(tem)]),
        );
        let p2 = mk_op(
            PipeId::NormP2,
            vec![
                a.b_x.trecho(0, n),
                w.inteiro(),
                a.b_parciais.inteiro(),
                a.b_normed.trecho(0, n),
                a.b_xq.inteiro(),
                a.b_xd.inteiro(),
            ],
            groups_q(c.n_embd),
            self.nt(),
            PushSpec::Static(vec![u32_ou(c.n_embd, 0), c.rms_eps, groups_norma(c)]),
        );
        let ghost ops = ops_norma(*self.st, self.n_tok as int, *res, *w, tem);
        proof {
            assert(p1@ =~= ops[0]);
            assert(p2@ =~= ops[1]);
        }
        poe(plan, p1);
        poe(plan, p2);
        assert(plano_de(plan@) =~= plano_de(old(plan)@) + ops);
    }

    fn quantiza(&self, b: &Buf, xq: &Buf, xd: &Buf, i: usize, n: usize) -> (r: PlannedOp)
        requires
            i * 4 <= usize::MAX,
            n * 4 <= usize::MAX,
        ensures
            r@ == op_quantiza(*b, *xq, *xd, i as int, n as int),
    {
        proof {
            reveal(op_quantiza);
        }
        mk_op(
            PipeId::QuantizeX,
            vec![b.trecho(i, n), xq.inteiro(), xd.inteiro()],
            groups_q(n),
            1,
            PushSpec::Static(vec![n as u32, 0, 0]),
        )
    }

    fn qk_norm(&self, b: &Buf, w: &Buf, n: usize, cabecas: usize, passo: usize) -> (r: PlannedOp)
        requires
            n * 4 <= usize::MAX,
        ensures
            r@ == op_qk_norm(self.st.cfg, *b, *w, n as int, cabecas as int, passo as int),
    {
        proof {
            reveal(op_qk_norm);
        }
        let c = &self.st.cfg;
        mk_op(
            PipeId::DnNorm,
            vec![b.trecho(0, n), w.inteiro(), b.trecho(0, n), b.trecho(0, n)],
            u32_sat(cabecas),
            1,
            PushSpec::Static(
                vec![u32_ou(c.head_dim, 0), u32_sat(cabecas), 2, c.rms_eps, u32_sat(passo)],
            ),
        )
    }

    fn bias(&self, plan: &mut Vec<PlannedOp>, dst: &Buf, b: &Option<Buf>, dim: usize)
        requires
            self.ok(),
            cabe_n(dim as int, self.n_tok as int),
        ensures
            plano_de(final(plan)@) == plano_de(old(plan)@) + ops_bias(
                *dst,
                *b,
                dim as int,
                self.n_tok as int,
            ),
    {
        let ghost p0 = plano_de(plan@);
        match b {
            None => {
                assert(plano_de(plan@) =~= p0 + ops_bias(*dst, *b, dim as int, self.n_tok as int));
            },
            Some(x) => {
                let mut t: usize = 0;
                assert(plano_de(plan@) =~= p0 + ops_bias(*dst, *b, dim as int, 0));
                while t < self.n_tok
                    invariant
                        t <= self.n_tok,
                        self.ok(),
                        cabe_n(dim as int, self.n_tok as int),
                        *b == Some(*x),
                        plano_de(plan@) == p0 + ops_bias(*dst, *b, dim as int, t as int),
                    decreases self.n_tok - t,
                {
                    proof {
                        reveal(op_bias);
                        lemma_cabe(dim as int, self.n_tok as int, t as int);
                    }
                    let op = mk_op(
                        PipeId::Add,
                        vec![dst.trecho(t * dim, dim), x.inteiro()],
                        groups_for(dim),
                        1,
                        PushSpec::Static(vec![dim as u32]),
                    );
                    assert(op@ =~= op_bias(*dst, *x, dim as int, t as int));
                    poe(plan, op);
                    t += 1;
                    assert(plano_de(plan@) =~= p0 + ops_bias(*dst, *b, dim as int, t as int));
                }
            },
        }
    }

    fn rope(&self, b: &Buf, n: usize, cabecas: usize, passo: usize) -> (r: PlannedOp)
        requires
            self.ok(),
            n * 4 <= usize::MAX,
            cabecas * self.st.cfg.rope_dim <= usize::MAX,
        ensures
            r@ == op_rope(
                *self.st,
                self.n_tok as int,
                *b,
                n as int,
                cabecas as int,
                passo as int,
            ),
    {
        proof {
            reveal(op_rope);
        }
        let rd: usize = self.st.cfg.rope_dim;
        proof {
            lemma_metade(cabecas as int, rd as int);
        }
        mk_op(
            PipeId::Rope,
            vec![b.trecho(0, n), self.st.freq_buf.inteiro()],
            groups_for(cabecas * (rd / 2)),
            self.nt(),
            PushSpec::Rope { n_head: cabecas as u32, stride: passo as u32 },
        )
    }

    fn rope_k(&self, l: usize, desloc: u32) -> (r: PlannedOp)
        requires
            self.ok(),
            desloc == desloc_da_camada(*self.st, l as int),
        ensures
            r@ == op_rope_k(*self.st, self.k, self.n_tok as int, l as int),
    {
        proof {
            reveal(op_rope_k);
        }
        let c = &self.st.cfg;
        let a = &self.st.a;
        let n: usize = self.por_token(c.kv_dim);
        if self.k.rope_kv {
            proof {
                lemma_metade(c.n_head_kv as int, c.head_dim as int);
            }
            mk_op(
                PipeId::RopeKv,
                vec![a.b_k.trecho(0, n), self.st.freq_buf.inteiro(), a.kcache.inteiro()],
                groups_for(c.n_head_kv * (c.head_dim / 2)),
                self.nt(),
                PushSpec::RopeKv { n_head: c.n_head_kv as u32, kv_layer_off: desloc },
            )
        } else {
            self.rope(&a.b_k, n, c.n_head_kv, c.head_dim)
        }
    }

    fn nucleo(&self, kcache: &Buf, vcache: &Buf, kv_layer_off: u32) -> (r: PlannedOp)
        requires
            self.ok(),
        ensures
            r@ == op_atencao(*self.st, self.n_tok as int, *kcache, *vcache, kv_layer_off),
    {
        proof {
            reveal(op_atencao);
        }
        let c = &self.st.cfg;
        let a = &self.st.a;
        let q = a.b_q.trecho(0, self.por_token(self.q_out()));
        let o = a.b_attn.trecho(0, self.por_token(self.attn_dim()));
        let curto = Despacho {
            pipe: PipeId::Attention,
            binds: vec![q, kcache.inteiro(), vcache.inteiro(), o],
            groups: c.n_head as u32,
            groups_y: self.nt(),
            push: PushSpec::Attention { kv_layer_off },
        };
        let split = Despacho {
            pipe: PipeId::AttentionSplit,
            binds: vec![q, kcache.inteiro(), vcache.inteiro(), a.b_attn_split.inteiro()],
            groups: c.n_head as u32,
            groups_y: self.nt(),
            push: PushSpec::Attention { kv_layer_off },
        };
        let reduce = Despacho {
            pipe: PipeId::AttnReduce,
            binds: vec![a.b_attn_split.inteiro(), o],
            groups: c.n_head as u32,
            groups_y: self.nt(),
            push: PushSpec::AttnReduce,
        };
        PlannedOp::Atencao { curto, split, reduce }
    }

    fn saida_atencao(&self) -> (r: PlannedOp)
        requires
            self.ok(),
        ensures
            r@ == op_saida_atencao(*self.st, self.n_tok as int),
    {
        proof {
            reveal(op_saida_atencao);
        }
        let c = &self.st.cfg;
        let a = &self.st.a;
        if c.delta_net.is_some() {
            let n: usize = self.por_token(self.attn_dim());
            let q: usize = self.por_token(self.q_out());
            mk_op(
                PipeId::GateQuant,
                vec![a.b_attn.trecho(0, n), a.b_q.trecho(0, q), a.b_xq.inteiro(), a.b_xd.inteiro()],
                groups_q(n),
                1,
                PushSpec::Static(vec![u32_ou(n, 0), u32_ou(c.head_dim, 0)]),
            )
        } else {
            self.quantiza(&a.b_attn, &a.b_xq, &a.b_xd, 0, self.por_token(c.n_embd))
        }
    }

    fn projecoes(
        &self,
        plan: &mut Vec<PlannedOp>,
        l: usize,
        wq: &QWeight,
        wk: &QWeight,
        wv: &QWeight,
    )
        requires
            self.ok(),
            l < self.st.cfg.n_layer,
        ensures
            plano_de(final(plan)@) == plano_de(old(plan)@) + ops_projecoes(
                *self.st,
                self.k,
                self.modo,
                self.n_tok as int,
                l as int,
                (*wq, *wk, *wv),
            ),
    {
        let c = &self.st.cfg;
        let a = &self.st.a;
        let la = &self.st.aux[l];
        let ghost p0 = plano_de(plan@);
        let q_out: usize = self.q_out();
        poe(plan, self.mv(wq, &a.b_q, c.n_embd, q_out));
        poe(plan, self.mv(wk, &a.b_k, c.n_embd, c.kv_dim));
        poe(plan, self.mv(wv, &a.b_v, c.n_embd, c.kv_dim));
        let ghost p1 = plano_de(plan@);
        if let (Some(qn), Some(kn)) = (&la.q_norm, &la.k_norm) {
            let nq: usize = self.por_token(q_out);
            poe(plan, self.qk_norm(&a.b_q, qn, nq, c.n_head * self.n_tok, c.head_dim * 2));
            let nk: usize = self.por_token(c.kv_dim);
            poe(plan, self.qk_norm(&a.b_k, kn, nk, c.n_head_kv * self.n_tok, c.head_dim));
        }
        assert(plano_de(plan@) =~= p1 + ops_qk(*self.st, self.n_tok as int, l as int));
        self.bias(plan, &a.b_q, &la.q_bias, c.n_embd);
        self.bias(plan, &a.b_k, &la.k_bias, c.kv_dim);
        self.bias(plan, &a.b_v, &la.v_bias, c.kv_dim);
        assert(plano_de(plan@) =~= p0 + ops_projecoes(
            *self.st,
            self.k,
            self.modo,
            self.n_tok as int,
            l as int,
            (*wq, *wk, *wv),
        ));
    }

    /// An attention layer up to its output projection.
    fn atencao(&self, plan: &mut Vec<PlannedOp>, l: usize, slot: usize)
        requires
            self.ok(),
            l < self.st.cfg.n_layer,
            self.st.qw@[l as int].mixer is Attn,
            slot == self.st.slot(l as int),
        ensures
            plano_de(final(plan)@) == plano_de(old(plan)@) + ops_atencao(
                *self.st,
                self.k,
                self.modo,
                self.n_tok as int,
                l as int,
            ),
    {
        let c = &self.st.cfg;
        let a = &self.st.a;
        let ghost p0 = plano_de(plan@);
        if let MixerQ::Attn { attn_q, attn_k, attn_v, attn_output } = &self.st.qw[l].mixer {
            self.projecoes(plan, l, attn_q, attn_k, attn_v);
            let passo: usize = if c.delta_net.is_some() {
                c.head_dim * 2
            } else {
                c.head_dim
            };
            poe(plan, self.rope(&a.b_q, self.por_token(self.q_out()), c.n_head, passo));
            proof {
                lemma_desloc(*self.st, l as int);
            }
            let desloc: u32 = (slot * c.ctx * c.kv_dim) as u32;
            poe(plan, self.rope_k(l, desloc));
            poe(plan, PlannedOp::KvAppend { slot, com_k: !self.k.rope_kv });
            poe(plan, self.nucleo(&a.kcache, &a.vcache, desloc));
            poe(plan, self.saida_atencao());
            poe(plan, self.mv(attn_output, &a.b_proj, self.attn_dim(), c.n_embd));
            assert(plano_de(plan@) =~= p0 + ops_atencao(
                *self.st,
                self.k,
                self.modo,
                self.n_tok as int,
                l as int,
            ));
        }
    }

    /// The feed-forward block of a layer.
    fn ffn(&self, plan: &mut Vec<PlannedOp>, l: usize)
        requires
            self.ok(),
            l < self.st.cfg.n_layer,
        ensures
            plano_de(final(plan)@) == plano_de(old(plan)@) + ops_ffn(
                *self.st,
                self.k,
                self.modo,
                self.n_tok as int,
                l as int,
            ),
    {
        proof {
            reveal(op_swiglu);
        }
        let c = &self.st.cfg;
        let a = &self.st.a;
        let q = &self.st.qw[l];
        let ghost p0 = plano_de(plan@);
        self.norma(plan, &a.b_proj, &self.st.aux[l].ffn_norm, true);
        poe(plan, self.mv(&q.ffn_gate, &a.b_gate, c.n_embd, c.n_ff));
        poe(plan, self.mv(&q.ffn_up, &a.b_up, c.n_embd, c.n_ff));
        let n: usize = self.por_token(c.n_ff);
        let op = mk_op(
            PipeId::SwigluQuant,
            vec![
                a.b_gate.trecho(0, n),
                a.b_up.trecho(0, n),
                a.b_act.trecho(0, n),
                a.b_xq.inteiro(),
                a.b_xd.inteiro(),
            ],
            groups_q(n),
            1,
            PushSpec::Static(vec![n as u32]),
        );
        assert(op@ =~= op_swiglu(*self.st, self.n_tok as int));
        poe(plan, op);
        poe(plan, self.mv(&q.ffn_down, &a.b_ffn, c.n_ff, c.n_embd));
        assert(plano_de(plan@) =~= p0 + ops_ffn(
            *self.st,
            self.k,
            self.modo,
            self.n_tok as int,
            l as int,
        ));
    }

    fn dims(&self, d: &DeltaNetConfig) -> (r: (usize, usize, usize))
        requires
            self.n_tok >= 1,
            cabe_delta(*d, self.n_tok as int),
        ensures
            r.0 == d.key_dim(),
            r.1 == d.value_dim(),
            r.2 == d.conv_dim(),
            2 * r.0 <= r.2,
            r.0 * 4 <= usize::MAX,
            r.1 * 4 <= usize::MAX,
            r.2 * 4 <= usize::MAX,
    {
        proof {
            lemma_dims(*d, self.n_tok as int, 1);
        }
        let k: usize = d.d_state * d.n_k_heads;
        let v: usize = d.head_v_dim * d.n_v_heads;
        (k, v, k * 2 + v)
    }

    fn dn_gates(&self, d: &DeltaNetConfig, b: &DnBufs, da: &DeltaBufs, t: usize, n: usize) -> (r:
        PlannedOp)
        requires
            self.ok(),
            cabe_delta(*d, self.n_tok as int),
            1 <= n,
            t + n <= self.n_tok,
        ensures
            r@ == op_dn_gates(*self.st, *d, *b, *da, t as int, n as int),
    {
        let c = &self.st.cfg;
        proof {
            reveal(op_dn_gates);
            lemma_cabe(c.n_embd as int, self.n_tok as int, t as int);
            lemma_cabe(c.n_embd as int, self.n_tok as int, n as int);
            lemma_cabe(d.n_v_heads * 2, self.n_tok as int, t as int);
            lemma_cabe(d.n_v_heads * 2, self.n_tok as int, n as int);
        }
        mk_op(
            PipeId::DnGates,
            vec![
                self.st.a.b_normed.trecho(t * c.n_embd, c.n_embd * n),
                da.alpha.inteiro(),
                da.beta.inteiro(),
                da.adt.inteiro(),
                b.gb.trecho(t * (d.n_v_heads * 2), d.n_v_heads * 2 * n),
            ],
            u32_sat(d.n_v_heads),
            u32_ou(n, 1),
            PushSpec::Static(vec![u32_sat(c.n_embd), u32_sat(d.n_v_heads), 0]),
        )
    }

    fn dn_conv(&self, d: &DeltaNetConfig, b: &DnBufs, da: &DeltaBufs, t: usize, n: usize) -> (r:
        PlannedOp)
        requires
            self.ok(),
            cabe_delta(*d, self.n_tok as int),
            1 <= n,
            t + n <= self.n_tok,
        ensures
            r@ == op_dn_conv(*d, *b, *da, t as int, n as int),
    {
        let (_, _, cd) = self.dims(d);
        proof {
            reveal(op_dn_conv);
            lemma_cabe(cd as int, self.n_tok as int, t as int);
            lemma_cabe(cd as int, self.n_tok as int, n as int);
        }
        mk_op(
            PipeId::DnConv,
            vec![
                da.janela.inteiro(),
                b.qkv.trecho(t * cd, cd * n),
                da.conv1d.inteiro(),
                b.conv.trecho(t * cd, cd * n),
            ],
            groups_for(cd),
            1,
            PushSpec::Static(vec![u32_sat(cd), u32_sat(d.d_conv), u32_ou(n, 1)]),
        )
    }

    fn dn_l2(
        &self,
        d: &DeltaNetConfig,
        b: &DnBufs,
        t: usize,
        n: usize,
        lidos: usize,
        passo: u32,
    ) -> (r: PlannedOp)
        requires
            self.ok(),
            cabe_delta(*d, self.n_tok as int),
            1 <= n,
            t + n <= self.n_tok,
            lidos * 4 <= usize::MAX,
        ensures
            r@ == op_dn_l2(self.st.cfg, *d, *b, t as int, n as int, lidos as int, passo),
    {
        let (kd, _, cd) = self.dims(d);
        proof {
            reveal(op_dn_l2);
            lemma_cabe(kd as int, self.n_tok as int, t as int);
            lemma_cabe(kd as int, self.n_tok as int, n as int);
            lemma_cabe(cd as int, self.n_tok as int, t as int);
        }
        mk_op(
            PipeId::DnL2Qk,
            vec![
                b.conv.trecho(t * cd, lidos),
                b.qn.trecho(t * kd, kd * n),
                b.kn.trecho(t * kd, kd * n),
            ],
            u32_sat(d.n_k_heads * 2),
            u32_ou(n, 1),
            PushSpec::Static(
                vec![u32_sat(d.d_state), u32_sat(d.n_k_heads), self.st.cfg.rms_eps, passo],
            ),
        )
    }

    fn dn_delta(
        &self,
        d: &DeltaNetConfig,
        b: &DnBufs,
        da: &DeltaBufs,
        t: usize,
        n: usize,
        v: usize,
        passo: u32,
    ) -> (r: PlannedOp)
        requires
            self.ok(),
            cabe_delta(*d, self.n_tok as int),
            1 <= n,
            t + n <= self.n_tok,
            v * 4 <= usize::MAX,
        ensures
            r@ == op_dn_delta(*d, *b, *da, t as int, n as int, v as int, passo),
    {
        let (kd, vd, cd) = self.dims(d);
        proof {
            reveal(op_dn_delta);
            lemma_cabe(kd as int, self.n_tok as int, t as int);
            lemma_cabe(kd as int, self.n_tok as int, n as int);
            lemma_cabe(vd as int, self.n_tok as int, t as int);
            lemma_cabe(vd as int, self.n_tok as int, n as int);
            lemma_cabe(cd as int, self.n_tok as int, t as int);
            lemma_cabe(d.n_v_heads * 2, self.n_tok as int, t as int);
            lemma_cabe(d.n_v_heads * 2, self.n_tok as int, n as int);
        }
        mk_op(
            PipeId::DeltaNet,
            vec![
                da.estado.inteiro(),
                b.qn.trecho(t * kd, kd * n),
                b.kn.trecho(t * kd, kd * n),
                b.conv.trecho(t * cd + 2 * kd, v),
                b.gb.trecho(t * (d.n_v_heads * 2), d.n_v_heads * 2 * n),
                b.out.trecho(t * vd, vd * n),
            ],
            u32_sat(d.n_v_heads * d.d_state / 4),
            1,
            PushSpec::Static(
                vec![
                    u32_sat(d.d_state),
                    u32_sat(d.n_v_heads),
                    u32_ou(d.n_v_heads / d.n_k_heads, 1),
                    u32_ou(n, 1),
                    passo,
                ],
            ),
        )
    }

    fn dn_fim(
        &self,
        plan: &mut Vec<PlannedOp>,
        d: &DeltaNetConfig,
        b: &DnBufs,
        da: &DeltaBufs,
        w_out: &QWeight,
    )
        requires
            self.ok(),
            cabe_delta(*d, self.n_tok as int),
        ensures
            plano_de(final(plan)@) == plano_de(old(plan)@) + ops_dn_fim(
                *self.st,
                self.k,
                self.modo,
                self.n_tok as int,
                *d,
                *b,
                *da,
                *w_out,
            ),
    {
        let c = &self.st.cfg;
        let (_, vd, _) = self.dims(d);
        let n: usize = self.por_token(vd);
        proof {
            reveal(ops_dn_fim);
            lemma_dims(*d, self.n_tok as int, self.n_tok as int);
        }
        let h: usize = d.n_v_heads * self.n_tok;
        let op1 = mk_op(
            PipeId::DnNorm,
            vec![
                b.out.trecho(0, n),
                da.norm.inteiro(),
                b.z.trecho(0, n),
                b.normed.trecho(0, n),
            ],
            u32_sat(h),
            1,
            PushSpec::Static(
                vec![
                    u32_sat(d.head_v_dim),
                    u32_sat(h),
                    1,
                    c.rms_eps,
                    u32_sat(d.head_v_dim),
                ],
            ),
        );
        let op2 = mk_op(
            PipeId::QuantizeX,
            vec![b.normed.trecho(0, n), b.xq.inteiro(), b.xd.inteiro()],
            u32_sat(teto_usize(n / 32, 64)),
            1,
            PushSpec::Static(vec![u32_sat(n), 0, 0]),
        );
        let op3 = self.mv_gen(w_out, &self.st.a.b_proj, &b.xq, &b.xd, self.n_tok, vd, c.n_embd);
        let ghost ops = ops_dn_fim(
            *self.st,
            self.k,
            self.modo,
            self.n_tok as int,
            *d,
            *b,
            *da,
            *w_out,
        );
        proof {
            assert(op1@ =~= ops[0]);
            assert(op2@ =~= ops[1]);
            assert(op3@ == ops[2]);
        }
        poe(plan, op1);
        poe(plan, op2);
        poe(plan, op3);
        assert(plano_de(plan@) =~= plano_de(old(plan)@) + ops);
    }

    fn dn_inicio(
        &self,
        plan: &mut Vec<PlannedOp>,
        d: &DeltaNetConfig,
        b: &DnBufs,
        w_qkv: &QWeight,
        w_gate: &QWeight,
    )
        requires
            self.ok(),
            cabe_delta(*d, self.n_tok as int),
        ensures
            plano_de(final(plan)@) == plano_de(old(plan)@) + ops_dn_inicio(
                *self.st,
                self.k,
                self.modo,
                self.n_tok as int,
                *d,
                *b,
                *w_qkv,
                *w_gate,
            ),
    {
        let c = &self.st.cfg;
        let (_, vd, cd) = self.dims(d);
        poe(plan, self.mv(w_qkv, &b.qkv, c.n_embd, cd));
        poe(plan, self.mv(w_gate, &b.z, c.n_embd, vd));
        assert(plano_de(plan@) =~= plano_de(old(plan)@) + ops_dn_inicio(
            *self.st,
            self.k,
            self.modo,
            self.n_tok as int,
            *d,
            *b,
            *w_qkv,
            *w_gate,
        ));
    }

    /// A linear-attention layer of the decode or the prefill.
    fn plano_delta(&self, plan: &mut Vec<PlannedOp>, l: usize) -> (r: Result<(), MatmulError>)
        requires
            self.ok(),
            l < self.st.cfg.n_layer,
            self.st.qw@[l as int].mixer is Delta,
            !(self.modo is Verify),
        ensures
            r is Ok <==> delta_ok(*self.st, self.modo, l as int),
            r matches Err(e) ==> e == sem_recurso(),
            r is Ok ==> plano_de(final(plan)@) == plano_de(old(plan)@) + ops_delta(
                *self.st,
                self.k,
                self.modo,
                self.n_tok as int,
                l as int,
            ),
    {
        let ghost p0 = plano_de(plan@);
        if let MixerQ::Delta { attn_qkv, attn_gate, ssm_out } = &self.st.qw[l].mixer {
            match (&self.st.cfg.delta_net, &self.st.a.dn, &self.st.aux[l].delta) {
                (Some(d), Some(b), Some(da)) => {
                    if d.d_conv > 5 {
                        return Err(falta_recurso());
                    }
                    let (kd, _, cd) = self.dims(d);
                    let n: usize = self.por_token(cd);
                    proof {
                        lemma_cabe(cd as int, self.n_tok as int, 1);
                    }
                    self.dn_inicio(plan, d, b, attn_qkv, attn_gate);
                    poe(plan, self.dn_gates(d, b, da, 0, self.n_tok));
                    poe(plan, self.dn_conv(d, b, da, 0, self.n_tok));
                    poe(plan, self.dn_l2(d, b, 0, self.n_tok, n, u32_sat(cd)));
                    poe(plan, self.dn_delta(d, b, da, 0, self.n_tok, n - 2 * kd, u32_sat(cd)));
                    self.dn_fim(plan, d, b, da, ssm_out);
                    assert(plano_de(plan@) =~= p0 + ops_delta(
                        *self.st,
                        self.k,
                        self.modo,
                        self.n_tok as int,
                        l as int,
                    ));
                    return Ok(());
                },
                _ => {},
            }
        }
        Err(falta_recurso())
    }

    /// A linear-attention layer of the verification.
    fn plano_delta_verify(&self, plan: &mut Vec<PlannedOp>, l: usize) -> (r: Result<
        (),
        MatmulError,
    >)
        requires
            self.ok(),
            l < self.st.cfg.n_layer,
            self.st.qw@[l as int].mixer is Delta,
            self.modo is Verify,
        ensures
            r is Ok <==> delta_ok(*self.st, self.modo, l as int),
            r matches Err(e) ==> e == sem_recurso(),
            r is Ok ==> plano_de(final(plan)@) == plano_de(old(plan)@) + ops_delta_verify(
                *self.st,
                self.k,
                l as int,
            ),
    {
        let ghost p0 = plano_de(plan@);
        if let MixerQ::Delta { attn_qkv, attn_gate, ssm_out } = &self.st.qw[l].mixer {
            match (&self.st.cfg.delta_net, &self.st.a.dn, &self.st.aux[l].delta) {
                (Some(d), Some(b), Some(da)) => {
                    if da.estado_snap.len() != VERIFY_TOK - 1 || da.janela_snap.len() != VERIFY_TOK
                        - 1 {
                        return Err(falta_recurso());
                    }
                    self.dn_inicio(plan, d, b, attn_qkv, attn_gate);
                    self.gates_um_a_um(plan, d, b, da);
                    self.conv_um_a_um(plan, d, b, da);
                    self.l2_um_a_um(plan, d, b);
                    self.estado_um_a_um(plan, d, b, da);
                    self.dn_fim(plan, d, b, da, ssm_out);
                    assert(plano_de(plan@) =~= p0 + ops_delta_verify(*self.st, self.k, l as int));
                    return Ok(());
                },
                _ => {},
            }
        }
        Err(falta_recurso())
    }

    fn gates_um_a_um(
        &self,
        plan: &mut Vec<PlannedOp>,
        d: &DeltaNetConfig,
        b: &DnBufs,
        da: &DeltaBufs,
    )
        requires
            self.ok(),
            cabe_delta(*d, self.n_tok as int),
        ensures
            plano_de(final(plan)@) == plano_de(old(plan)@) + ops_gates_ate(
                *self.st,
                *d,
                *b,
                *da,
                self.n_tok as int,
            ),
    {
        let ghost p0 = plano_de(plan@);
        let mut t: usize = 0;
        assert(plano_de(plan@) =~= p0 + ops_gates_ate(*self.st, *d, *b, *da, 0));
        while t < self.n_tok
            invariant
                t <= self.n_tok,
                self.ok(),
                cabe_delta(*d, self.n_tok as int),
                plano_de(plan@) == p0 + ops_gates_ate(*self.st, *d, *b, *da, t as int),
            decreases self.n_tok - t,
        {
            poe(plan, self.dn_gates(d, b, da, t, 1));
            t += 1;
            assert(plano_de(plan@) =~= p0 + ops_gates_ate(*self.st, *d, *b, *da, t as int));
        }
    }

    fn conv_um_a_um(
        &self,
        plan: &mut Vec<PlannedOp>,
        d: &DeltaNetConfig,
        b: &DnBufs,
        da: &DeltaBufs,
    )
        requires
            self.ok(),
            cabe_delta(*d, self.n_tok as int),
            da.janela_snap@.len() >= self.n_tok - 1,
        ensures
            plano_de(final(plan)@) == plano_de(old(plan)@) + ops_conv_ate(
                *d,
                *b,
                *da,
                self.n_tok as int,
            ),
    {
        let ghost p0 = plano_de(plan@);
        let mut t: usize = 0;
        assert(plano_de(plan@) =~= p0 + ops_conv_ate(*d, *b, *da, 0));
        while t < self.n_tok
            invariant
                t <= self.n_tok,
                self.ok(),
                cabe_delta(*d, self.n_tok as int),
                da.janela_snap@.len() >= self.n_tok - 1,
                plano_de(plan@) == p0 + ops_conv_ate(*d, *b, *da, t as int),
            decreases self.n_tok - t,
        {
            if t >= 1 {
                poe(
                    plan,
                    PlannedOp::Copia {
                        src: da.janela.buffer,
                        dst: da.janela_snap[t - 1].buffer,
                        bytes: da.janela.size,
                    },
                );
            }
            poe(plan, self.dn_conv(d, b, da, t, 1));
            t += 1;
            assert(plano_de(plan@) =~= p0 + ops_conv_ate(*d, *b, *da, t as int));
        }
    }

    fn l2_um_a_um(&self, plan: &mut Vec<PlannedOp>, d: &DeltaNetConfig, b: &DnBufs)
        requires
            self.ok(),
            cabe_delta(*d, self.n_tok as int),
        ensures
            plano_de(final(plan)@) == plano_de(old(plan)@) + ops_l2_ate(
                self.st.cfg,
                *d,
                *b,
                self.n_tok as int,
            ),
    {
        let ghost p0 = plano_de(plan@);
        let (kd, _, _) = self.dims(d);
        let mut t: usize = 0;
        assert(plano_de(plan@) =~= p0 + ops_l2_ate(self.st.cfg, *d, *b, 0));
        while t < self.n_tok
            invariant
                t <= self.n_tok,
                self.ok(),
                cabe_delta(*d, self.n_tok as int),
                kd == d.key_dim(),
                2 * kd * 4 <= usize::MAX,
                plano_de(plan@) == p0 + ops_l2_ate(self.st.cfg, *d, *b, t as int),
            decreases self.n_tok - t,
        {
            poe(plan, self.dn_l2(d, b, t, 1, 2 * kd, 0));
            t += 1;
            assert(plano_de(plan@) =~= p0 + ops_l2_ate(self.st.cfg, *d, *b, t as int));
        }
    }

    fn estado_um_a_um(
        &self,
        plan: &mut Vec<PlannedOp>,
        d: &DeltaNetConfig,
        b: &DnBufs,
        da: &DeltaBufs,
    )
        requires
            self.ok(),
            cabe_delta(*d, self.n_tok as int),
            da.estado_snap@.len() >= self.n_tok - 1,
        ensures
            plano_de(final(plan)@) == plano_de(old(plan)@) + ops_estado_ate(
                *d,
                *b,
                *da,
                self.n_tok as int,
            ),
    {
        let ghost p0 = plano_de(plan@);
        let (_, vd, _) = self.dims(d);
        let mut t: usize = 0;
        assert(plano_de(plan@) =~= p0 + ops_estado_ate(*d, *b, *da, 0));
        while t < self.n_tok
            invariant
                t <= self.n_tok,
                self.ok(),
                cabe_delta(*d, self.n_tok as int),
                da.estado_snap@.len() >= self.n_tok - 1,
                vd == d.value_dim(),
                vd * 4 <= usize::MAX,
                plano_de(plan@) == p0 + ops_estado_ate(*d, *b, *da, t as int),
            decreases self.n_tok - t,
        {
            if t >= 1 {
                poe(
                    plan,
                    PlannedOp::Copia {
                        src: da.estado.buffer,
                        dst: da.estado_snap[t - 1].buffer,
                        bytes: da.estado.size,
                    },
                );
            }
            poe(plan, self.dn_delta(d, b, da, t, 1, vd, u32_sat(vd)));
            t += 1;
            assert(plano_de(plan@) =~= p0 + ops_estado_ate(*d, *b, *da, t as int));
        }
    }

    fn camada(&self, plan: &mut Vec<PlannedOp>, l: usize, slot: usize) -> (r: Result<
        (),
        MatmulError,
    >)
        requires
            self.ok(),
            l < self.st.cfg.n_layer,
            slot == self.st.slot(l as int),
        ensures
            r is Ok <==> (self.st.qw@[l as int].mixer is Delta ==> delta_ok(
                *self.st,
                self.modo,
                l as int,
            )),
            r matches Err(e) ==> e == sem_recurso(),
            r is Ok ==> plano_de(final(plan)@) == plano_de(old(plan)@) + ops_camada(
                *self.st,
                self.k,
                self.modo,
                self.n_tok as int,
                l as int,
            ),
    {
        let a = &self.st.a;
        let ghost p0 = plano_de(plan@);
        self.norma(plan, &a.b_ffn, &self.st.aux[l].attn_norm, l > 0);
        match &self.st.qw[l].mixer {
            MixerQ::Delta { .. } => {
                let r = if self.modo == Modo::Verify {
                    self.plano_delta_verify(plan, l)
                } else {
                    self.plano_delta(plan, l)
                };
                if r.is_err() {
                    return r;
                }
            },
            MixerQ::Attn { .. } => {
                self.atencao(plan, l, slot);
            },
        }
        self.ffn(plan, l);
        assert(plano_de(plan@) =~= p0 + ops_camada(
            *self.st,
            self.k,
            self.modo,
            self.n_tok as int,
            l as int,
        ));
        Ok(())
    }

    fn fim(&self, plan: &mut Vec<PlannedOp>, rodou_camada: bool)
        requires
            self.ok(),
            rodou_camada == rodou(*self.st, self.k),
        ensures
            plano_de(final(plan)@) == plano_de(old(plan)@) + ops_fim(
                *self.st,
                self.k,
                self.modo,
                self.n_tok as int,
            ),
    {
        let c = &self.st.cfg;
        let a = &self.st.a;
        let ghost p0 = plano_de(plan@);
        proof {
            lemma_cabe(c.vocab as int, VERIFY_TOK as int, 1);
            lemma_cabe(c.n_embd as int, self.n_tok as int, self.n_tok - 1);
        }
        if c.shard.is_last() {
            self.norma(plan, &a.b_ffn, &self.st.output_norm_buf, rodou_camada);
            if self.modo == Modo::Verify {
                poe(
                    plan,
                    self.mv_gen(
                        &self.st.output_w,
                        &a.b_logits,
                        &a.b_xq,
                        &a.b_xd,
                        VERIFY_TOK,
                        c.n_embd,
                        c.vocab,
                    ),
                );
            } else {
                if self.n_tok > 1 {
                    let i: usize = (self.n_tok - 1) * c.n_embd;
                    poe(plan, self.quantiza(&a.b_normed, &a.b_xq, &a.b_xd, i, c.n_embd));
                }
                poe(
                    plan,
                    self.mv_gen(
                        &self.st.output_w,
                        &a.b_logits,
                        &a.b_xq,
                        &a.b_xd,
                        1,
                        c.n_embd,
                        c.vocab,
                    ),
                );
            }
        } else if rodou_camada {
            let n: usize = self.por_token(c.n_embd);
            poe(
                plan,
                mk_op(
                    PipeId::Add,
                    vec![a.b_x.trecho(0, n), a.b_ffn.trecho(0, n)],
                    groups_for(n),
                    1,
                    PushSpec::Static(vec![n as u32]),
                ),
            );
        }
        assert(plano_de(plan@) =~~= p0 + ops_fim(*self.st, self.k, self.modo, self.n_tok as int));
    }
}

proof fn lemma_metade(a: int, b: int)
    requires
        0 <= a,
        0 <= b,
    ensures
        0 <= a * (b / 2) <= a * b,
{
    assert(0 <= a * (b / 2) <= a * b) by (nonlinear_arith)
        requires
            0 <= a,
            0 <= b,
            0 <= b / 2 <= b,
    ;
}

/// The dimensions of the linear attention can be computed.
proof fn lemma_dims(d: DeltaNetConfig, nt: int, t: int)
    requires
        1 <= nt,
        0 <= t <= nt,
        cabe_delta(d, nt),
    ensures
        0 <= d.key_dim(),
        0 <= d.value_dim(),
        2 * d.key_dim() <= d.conv_dim(),
        d.conv_dim() * 4 <= usize::MAX,
        d.key_dim() * 4 <= usize::MAX,
        d.value_dim() * 4 <= usize::MAX,
        0 <= d.n_v_heads * t <= usize::MAX,
{
    assert(d.key_dim() >= 0) by (nonlinear_arith)
        requires
            d.key_dim() == d.d_state * d.n_k_heads,
    ;
    assert(d.value_dim() >= 0) by (nonlinear_arith)
        requires
            d.value_dim() == d.head_v_dim * d.n_v_heads,
    ;
    lemma_cabe(d.conv_dim(), nt, 1);
    lemma_cabe(d.key_dim(), nt, 1);
    lemma_cabe(d.value_dim(), nt, 1);
    lemma_cabe(d.n_v_heads * 2, nt, t);
    assert(d.n_v_heads * 2 * t == 2 * (d.n_v_heads * t)) by (nonlinear_arith);
    assert(d.n_v_heads * t >= 0) by (nonlinear_arith)
        requires
            t >= 0,
    ;
}

/// The cache slot of a layer lies in the cache.
proof fn lemma_desloc(st: ResidentState, l: int)
    requires
        0 <= l < st.qw@.len(),
        st.n_slots() * st.cfg.ctx <= usize::MAX,
        st.n_slots() * st.cfg.ctx * st.cfg.kv_dim <= usize::MAX,
    ensures
        0 <= st.slot(l) <= st.n_slots(),
        0 <= st.slot(l) * st.cfg.ctx <= usize::MAX,
        0 <= st.slot(l) * st.cfg.ctx * st.cfg.kv_dim <= usize::MAX,
{
    lemma_atencoes(st.atencao(), l, st.qw@.len() as int);
    let s = st.slot(l);
    let n = st.n_slots();
    let x = st.cfg.ctx as int;
    let d = st.cfg.kv_dim as int;
    assert(0 <= s * x <= n * x) by (nonlinear_arith)
        requires
            0 <= s <= n,
            0 <= x,
    ;
    assert(0 <= s * x * d <= n * x * d) by (nonlinear_arith)
        requires
            0 <= s * x <= n * x,
            0 <= d,
    ;
}

/// Which layers have a cache.
pub(crate) fn camadas_de_atencao(st: &ResidentState) -> (r: Vec<bool>)
    ensures
        r@ == st.atencao(),
{
    let mut r: Vec<bool> = Vec::new();
    let mut l: usize = 0;
    while l < st.qw.len()
        invariant
            l <= st.qw.len(),
            r@ == st.atencao().take(l as int),
        decreases st.qw.len() - l,
    {
        let atencao = match &st.qw[l].mixer {
            MixerQ::Delta { .. } => false,
            MixerQ::Attn { .. } => true,
        };
        r.push(atencao);
        l += 1;
        assert(r@ =~= st.atencao().take(l as int));
    }
    assert(r@ =~= st.atencao());
    r
}

/// The operations of a block of `modo`. Fails if a linear-attention layer that
/// would run lacks its buffers or has a window that the kernel does not hold.
pub fn build_plan(st: &ResidentState, k: &Knobs, modo: Modo) -> (r: Result<
    Vec<PlannedOp>,
    MatmulError,
>)
    requires
        st.completo(),
        cabe(*st, modo.tokens(st.cfg)),
        geom_ok(k.geom),
        geom_ok(k.geom_batch),
    ensures
        r is Ok <==> planejavel(*st, modo, camadas(*st, *k)),
        r matches Ok(p) ==> plano_de(p@) == plano(*st, *k, modo),
        r matches Err(e) ==> e == sem_recurso(),
{
    let b = Bloco { st, k: *k, modo, n_tok: modo.n_tok(&st.cfg) };
    let c = &st.cfg;
    let mut plan: Vec<PlannedOp> = Vec::new();
    poe(&mut plan, PlannedOp::Embed);
    let parar: usize = match k.parar_em {
        Some(n) => if n < c.n_layer {
            n
        } else {
            c.n_layer
        },
        None => c.n_layer,
    };
    let rodou_camada = c.n_layer > 0 && match k.parar_em {
        Some(n) => n != 0,
        None => true,
    };
    let eh_atencao = camadas_de_atencao(st);
    let (slots, _) = slots_kv(eh_atencao.as_slice());
    let ghost nt = b.n_tok as int;
    let mut l: usize = 0;
    assert(plano_de(plan@) =~= seq![OpM::Embed] + ops_camadas(*st, *k, modo, nt, 0));
    while l < parar
        invariant
            l <= parar <= c.n_layer,
            *c == st.cfg,
            b.ok(),
            b.st == st,
            b.k == *k,
            b.modo == modo,
            b.n_tok == nt,
            slots.len() == st.qw.len(),
            eh_atencao@ == st.atencao(),
            parar == camadas(*st, *k),
            forall|i: int| 0 <= i < slots.len() ==> #[trigger] slots[i] == slot_de(st.atencao(), i),
            planejavel(*st, modo, l as int),
            plano_de(plan@) == seq![OpM::Embed] + ops_camadas(*st, *k, modo, nt, l as int),
        decreases parar - l,
    {
        proof {
            lemma_atencoes(st.atencao(), 0, l as int);
            assert(slots[l as int] == slot_de(st.atencao(), l as int));
        }
        let slot: usize = match slots[l] {
            Some(s) => s,
            None => 0,
        };
        let r = b.camada(&mut plan, l, slot);
        if let Err(e) = r {
            return Err(e);
        }
        l += 1;
        assert(plano_de(plan@) =~= seq![OpM::Embed] + ops_camadas(*st, *k, modo, nt, l as int));
    }
    b.fim(&mut plan, rodou_camada);
    assert(plano_de(plan@) =~= plano(*st, *k, modo));
    Ok(plan)
}

} // verus!
