//! Plans, their barriers, and the commands of a step.

use llama_rs::vulkan::bancada::{medir, pesos_q4k, Kernel, Xs};
use llama_rs::vulkan::barreiras::marcar_barreiras;
use llama_rs::vulkan::contas::palavras_de;
use llama_rs::vulkan::diagnostico::{
    bytes_do_ensaio, dbg_add, dbg_attention, dbg_attention_bench, dbg_attention_split, dbg_dn_buf,
    dbg_rmsnorm, dbg_rope_xy, FormaAtencao,
};
use llama_rs::vulkan::erro::{MatmulError, VkResult};
use llama_rs::vulkan::estado::{
    Ativacoes, Buf, Cfg, DeltaBufs, DeltaNetConfig, DnBufs, Knobs, LayerAux, LayerQ, MixerQ, Modo,
    MtpBufs, QWeight, ResidentState,
};
use llama_rs::vulkan::gravacao::{record_mtp, record_token, Comando, Hidden, Parte, Passo};
use llama_rs::vulkan::layout::{planos, slots_de_tempo};
use llama_rs::vulkan::ops::{dbg_plano, Faixa, GgmlType, PipeId, PlannedOp, PushSpec};
use llama_rs::vulkan::perfil::{acumula, antes_do_fim, duracoes, guarda_spans, spans_de, tabela};
use llama_rs::vulkan::pipelines::{descreve, todas, Compilacao, DnPipe, Shader};
use llama_rs::vulkan::planejar::{build_plan, groups_for};
use llama_rs::vulkan::plano_mtp::build_plan_mtp;
use llama_rs::vulkan::recursos::a_liberar;
use llama_rs::vulkan::sessao::{
    copias_snapshot, gravar_rollback, passo_do_bloco, passo_do_verify, saida_len, zerar, Copia,
    Sessao,
};
use llama_rs::vulkan::shard::{Shard, SplitsForcados};
use std::collections::HashMap;

/// Hands out buffers with a number of their own.
struct Bufs {
    proximo: u64,
}

impl Bufs {
    fn novo(&mut self, size: u64) -> Buf {
        self.proximo += 1;
        Buf { buffer: self.proximo, size }
    }

    fn peso(&mut self, ty: GgmlType) -> QWeight {
        QWeight { ty, gpu: self.novo(1000) }
    }
}

/// A model of one attention layer and, in the hybrid architecture, one
/// linear-attention layer before it.
fn modelo(hibrido: bool, mtp: bool, n_batch: usize, ty: GgmlType) -> ResidentState {
    let mut b = Bufs { proximo: 0 };
    let n_layer = if hibrido { 2 } else { 1 };
    let cfg = Cfg {
        n_embd: 64,
        n_layer,
        n_head: 4,
        n_head_kv: 2,
        head_dim: 16,
        n_ff: 128,
        rope_dim: 16,
        kv_dim: 32,
        vocab: 100,
        ctx: 2048,
        rms_eps: 77,
        shard: Shard::whole(0, n_layer),
        delta_net: if hibrido {
            Some(DeltaNetConfig { d_state: 8, n_k_heads: 2, n_v_heads: 4, d_conv: 4, head_v_dim: 8 })
        } else {
            None
        },
        n_batch,
    };
    let mut qw = Vec::new();
    let mut aux = Vec::new();
    for l in 0..n_layer {
        let linear = hibrido && l == 0;
        let mixer = if linear {
            MixerQ::Delta { attn_qkv: b.peso(ty), attn_gate: b.peso(ty), ssm_out: b.peso(ty) }
        } else {
            MixerQ::Attn {
                attn_q: b.peso(ty),
                attn_k: b.peso(ty),
                attn_v: b.peso(ty),
                attn_output: b.peso(ty),
            }
        };
        qw.push(LayerQ { mixer, ffn_gate: b.peso(ty), ffn_up: b.peso(ty), ffn_down: b.peso(ty) });
        let n = if mtp { 2 } else { 0 };
        aux.push(LayerAux {
            attn_norm: b.novo(256),
            ffn_norm: b.novo(256),
            q_bias: if hibrido { None } else { Some(b.novo(256)) },
            k_bias: None,
            v_bias: None,
            q_norm: if hibrido { Some(b.novo(64)) } else { None },
            k_norm: if hibrido { Some(b.novo(64)) } else { None },
            delta: if linear {
                Some(DeltaBufs {
                    conv1d: b.novo(1024),
                    adt: b.novo(32),
                    alpha: b.novo(1024),
                    beta: b.novo(1024),
                    norm: b.novo(32),
                    estado: b.novo(1024),
                    janela: b.novo(768),
                    estado_snap: (0..n).map(|_| b.novo(1024)).collect(),
                    janela_snap: (0..n).map(|_| b.novo(768)).collect(),
                })
            } else {
                None
            },
        });
    }
    let a = Ativacoes {
        embd_stage: b.novo(4096),
        kcache: b.novo(2048 * 32 * 4),
        vcache: b.novo(2048 * 32 * 4),
        b_x: b.novo(4096),
        b_normed: b.novo(4096),
        b_parciais: b.novo(4096),
        b_q: b.novo(8192),
        b_k: b.novo(4096),
        b_v: b.novo(4096),
        b_attn: b.novo(4096),
        b_attn_split: b.novo(65536),
        b_proj: b.novo(4096),
        b_gate: b.novo(8192),
        b_up: b.novo(8192),
        b_act: b.novo(8192),
        b_logits: b.novo(1200),
        b_ffn: b.novo(4096),
        b_xq: b.novo(4096),
        b_xd: b.novo(4096),
        logits_host: b.novo(1200),
        dn: if hibrido {
            Some(DnBufs {
                qkv: b.novo(4096),
                conv: b.novo(4096),
                z: b.novo(4096),
                gb: b.novo(4096),
                qn: b.novo(4096),
                kn: b.novo(4096),
                out: b.novo(4096),
                normed: b.novo(4096),
                xq: b.novo(4096),
                xd: b.novo(4096),
            })
        } else {
            None
        },
    };
    let cabeca = if mtp {
        Some(MtpBufs {
            eh_proj: b.peso(ty),
            attn_q: b.peso(ty),
            attn_k: b.peso(ty),
            attn_v: b.peso(ty),
            attn_output: b.peso(ty),
            ffn_gate: b.peso(ty),
            ffn_up: b.peso(ty),
            ffn_down: b.peso(ty),
            enorm: b.novo(256),
            hnorm: b.novo(256),
            shared_head_norm: b.novo(256),
            attn_norm: b.novo(256),
            ffn_norm: b.novo(256),
            q_norm: Some(b.novo(64)),
            k_norm: Some(b.novo(64)),
            emb_stage: b.novo(256),
            b_emb: b.novo(256),
            b_h: b.novo(256),
            b_eh: b.novo(512),
            b_x: b.novo(256),
            b_ffn: b.novo(256),
            kcache: b.novo(2048 * 32 * 4),
            vcache: b.novo(2048 * 32 * 4),
        })
    } else {
        None
    };
    ResidentState {
        cfg,
        qw,
        output_w: b.peso(GgmlType::Q6_K),
        aux,
        output_norm_buf: b.novo(256),
        freq_buf: b.novo(32),
        a,
        mtp: cabeca,
    }
}

fn knobs() -> Knobs {
    Knobs { geom: (128, 2), geom_batch: (64, 1), gemm: true, rope_kv: false, parar_em: None }
}

fn despacho(op: &PlannedOp) -> &llama_rs::vulkan::ops::Despacho {
    match op {
        PlannedOp::Dispatch(d) => d,
        _ => panic!("nao e um despacho"),
    }
}

#[test]
fn plano_do_decode_denso() {
    let st = modelo(false, false, 1, GgmlType::Q4_K);
    let p = build_plan(&st, &knobs(), Modo::Decode).unwrap();
    assert_eq!(
        dbg_plano(&p),
        vec![
            "embed", "norm_fused", "norm_p2", "matvec_q4k", "matvec_q4k", "matvec_q4k", "add",
            "rope", "rope", "kv_append", "attention", "quantize_x", "matvec_q4k", "norm_fused",
            "norm_p2", "matvec_q4k", "matvec_q4k", "swiglu_quant", "matvec_q4k", "norm_fused",
            "norm_p2", "matvec_q6k",
        ]
    );
    // The first norm adds nothing, the others do.
    assert!(matches!(&despacho(&p[1]).push, PushSpec::Static(w) if *w == vec![64, 0]));
    assert!(matches!(&despacho(&p[13]).push, PushSpec::Static(w) if *w == vec![64, 1]));
    assert!(matches!(&despacho(&p[19]).push, PushSpec::Static(w) if *w == vec![64, 1]));
    // 128 lanes of two rows each: four rows per workgroup.
    let q = despacho(&p[3]);
    assert_eq!((q.groups, q.groups_y), (16, 1));
    assert_eq!(q.binds[3], Faixa { buffer: st.a.b_q.buffer, offset: 0, bytes: 256 });
    let logits = despacho(&p[21]);
    assert_eq!(logits.groups, 13);
    assert_eq!(logits.bytes(), 1000 + 4096 + 4096);
}

#[test]
fn plano_do_prefill_usa_a_geometria_do_bloco() {
    let st = modelo(false, false, 8, GgmlType::Q4_K);
    let p = build_plan(&st, &knobs(), Modo::Batch).unwrap();
    let r = dbg_plano(&p);
    assert_eq!(r[3], "mul_mm_q4k");
    assert_eq!(despacho(&p[3]).groups, 1);
    assert_eq!(r.iter().filter(|x| **x == "add").count(), 8, "um bias por token");
    // Only the last token of the block has logits.
    assert_eq!(&r[r.len() - 2..], &["quantize_x", "matvec_q6k"]);
    let qx = despacho(&p[p.len() - 2]);
    assert_eq!(qx.binds[0], Faixa { buffer: st.a.b_normed.buffer, offset: 7 * 256, bytes: 256 });
    let sem = Knobs { gemm: false, ..knobs() };
    let p = build_plan(&st, &sem, Modo::Batch).unwrap();
    assert_eq!(despacho(&p[3]).pipe, PipeId::MatvecQ4KB);
    assert_eq!(despacho(&p[3]).groups, 64, "uma linha por workgroup");
}

#[test]
fn logits_do_prefill_tem_as_linhas_da_sua_pipeline() {
    // The logits of a block are a product with one vector: the kernel of the
    // decode, with its four rows per workgroup.
    for (ty, pipe) in
        [(GgmlType::Q4_K, PipeId::MatvecQ4K), (GgmlType::Q5_K, PipeId::MatvecQ5K)]
    {
        let mut st = modelo(false, false, 8, GgmlType::Q4_K);
        st.output_w.ty = ty;
        let p = build_plan(&st, &knobs(), Modo::Batch).unwrap();
        let logits = despacho(&p[p.len() - 1]);
        assert_eq!((logits.pipe, logits.groups), (pipe, 25));
    }
}

#[test]
fn plano_hibrido_e_verificacao() {
    let st = modelo(true, true, 1, GgmlType::Q8_0);
    let p = build_plan(&st, &knobs(), Modo::Decode).unwrap();
    assert_eq!(
        &dbg_plano(&p)[3..12],
        &[
            "matvec", "matvec", "dn_gates", "dn_conv", "dn_l2_qk", "delta_net", "dn_norm",
            "quantize_x", "matvec",
        ]
    );
    let v = build_plan(&st, &knobs(), Modo::Verify).unwrap();
    let r = dbg_plano(&v);
    assert_eq!(
        &r[5..22],
        &[
            "dn_gates", "dn_gates", "dn_gates", "dn_conv", "copia", "dn_conv", "copia", "dn_conv",
            "dn_l2_qk", "dn_l2_qk", "dn_l2_qk", "delta_net", "copia", "delta_net", "copia",
            "delta_net", "dn_norm",
        ]
    );
    let da = st.aux[0].delta.as_ref().unwrap();
    assert!(matches!(
        v[17],
        PlannedOp::Copia { src, dst, bytes: 1024 }
            if src == da.estado.buffer && dst == da.estado_snap[0].buffer
    ));
    assert_eq!(r[r.len() - 1], "matvec_q6k_v");
    // Without the copies there is no verification.
    let sem = modelo(true, false, 1, GgmlType::Q8_0);
    assert_eq!(
        build_plan(&sem, &knobs(), Modo::Verify).unwrap_err(),
        MatmulError::Vulkan(VkResult::ErrorFeatureNotPresent)
    );
    // Nor a plan with a window that the kernel does not hold.
    let mut larga = modelo(true, false, 1, GgmlType::Q8_0);
    larga.cfg.delta_net.as_mut().unwrap().d_conv = 6;
    assert!(build_plan(&larga, &knobs(), Modo::Decode).is_err());
    let parado = Knobs { parar_em: Some(0), ..knobs() };
    assert_eq!(
        dbg_plano(&build_plan(&larga, &parado, Modo::Decode).unwrap()),
        vec!["embed", "norm_fused", "norm_p2", "matvec_q6k"]
    );
}

#[test]
fn shard_do_meio_entrega_o_residual() {
    let mut st = modelo(false, false, 1, GgmlType::Q5_K);
    st.cfg.shard = Shard { device: 0, first_layer: 0, end_layer: 1, n_layer_total: 4 };
    let p = build_plan(&st, &knobs(), Modo::Decode).unwrap();
    assert_eq!(p[p.len() - 1].label(), "add");
    assert_eq!(despacho(&p[p.len() - 1]).binds[1].buffer, st.a.b_ffn.buffer);
}

#[test]
fn plano_da_cabeca() {
    let st = modelo(true, true, 1, GgmlType::Q8_0);
    let p = build_plan_mtp(&st, &knobs());
    assert_eq!(
        dbg_plano(&p),
        vec![
            "copia", "copia", "norm_fused", "norm_p2", "norm_fused", "norm_p2", "quantize_x",
            "matvec", "norm_fused", "norm_p2", "matvec", "matvec", "matvec", "dn_norm", "dn_norm",
            "rope", "rope", "kv_append", "attention", "gate_quant", "matvec", "norm_fused",
            "norm_p2", "matvec", "matvec", "swiglu_quant", "matvec", "norm_fused", "norm_p2",
            "matvec_q6k",
        ]
    );
    // The second norm writes the second half of the joined vector.
    let m = st.mtp.unwrap();
    assert_eq!(
        despacho(&p[5]).binds[3],
        Faixa { buffer: m.b_eh.buffer, offset: 256, bytes: 256 }
    );
    assert!(build_plan_mtp(&modelo(true, false, 1, GgmlType::Q8_0), &knobs()).is_empty());
}

#[test]
fn barreiras_so_onde_ha_conflito() {
    let st = modelo(false, false, 1, GgmlType::Q4_K);
    let p = build_plan(&st, &knobs(), Modo::Decode).unwrap();
    let b = marcar_barreiras(&p, &st, false);
    assert!(!b[0]);
    assert!(b[1] && b[2] && b[3], "cada passo le o anterior");
    assert!(!b[4] && !b[5], "as tres projecoes rodam juntas");
    assert!(b[6], "o bias escreve a query");
    assert!(!b[15 + 1], "gate e up rodam juntos");
    assert_eq!(marcar_barreiras(&p, &st, true), vec![true; p.len()]);
}

fn passo(pos: usize, n_tok: usize) -> Passo {
    Passo { pos, pos_bits: (pos as f32).to_bits(), n_tok }
}

#[test]
fn comandos_de_um_passo() {
    let st = modelo(false, false, 1, GgmlType::Q4_K);
    let p = build_plan(&st, &knobs(), Modo::Decode).unwrap();
    let b = marcar_barreiras(&p, &st, false);
    let livre = SplitsForcados { n: 0 };
    let c = record_token(&st, &p, &b, &passo(5, 1), Modo::Decode, &livre, false);
    assert!(matches!(
        c[0],
        Comando::Copia { src, dst, src_off: 0, dst_off: 0, size: 256 }
            if src == st.a.embd_stage.buffer && dst == st.a.b_x.buffer
    ));
    // K and V of the token go to position 5.
    assert_eq!(
        c.iter()
            .filter(|x| matches!(x, Comando::Copia { dst_off: 640, size: 128, .. }))
            .count(),
        2
    );
    let rope = c
        .iter()
        .find_map(|x| match x {
            Comando::Despacha { pipe: PipeId::Rope, push, .. } => Some(push.clone()),
            _ => None,
        })
        .unwrap();
    assert_eq!(palavras_de(&rope), vec![4, 16, 16, 5f32.to_bits(), 16]);
    assert!(matches!(c[c.len() - 2], Comando::Barreira));
    assert!(matches!(
        c[c.len() - 1],
        Comando::Copia { src, dst, size: 400, .. }
            if src == st.a.b_logits.buffer && dst == st.a.logits_host.buffer
    ));
    let barreiras = c.iter().filter(|x| matches!(x, Comando::Barreira)).count();
    assert_eq!(barreiras, b.iter().filter(|x| **x).count() + 1);
}

#[test]
fn cache_longo_e_fatiado() {
    let st = modelo(false, false, 1, GgmlType::Q4_K);
    let p = build_plan(&st, &knobs(), Modo::Decode).unwrap();
    let b = vec![false; p.len()];
    let livre = SplitsForcados { n: 0 };
    let curto = record_token(&st, &p, &b, &passo(700, 1), Modo::Decode, &livre, false);
    assert!(curto.iter().any(|x| matches!(x, Comando::Despacha { parte: Parte::Curto, z: 1, .. })));
    let longo = record_token(&st, &p, &b, &passo(1535, 1), Modo::Decode, &livre, false);
    let i = longo
        .iter()
        .position(|x| matches!(x, Comando::Despacha { parte: Parte::Split, z: 3, .. }))
        .unwrap();
    assert!(matches!(longo[i + 1], Comando::Barreira));
    match &longo[i + 2] {
        Comando::Despacha { parte: Parte::Reduce, push, z: 1, .. } => {
            assert_eq!(palavras_de(push), vec![4, 16, 3]);
        }
        _ => panic!("falta a reducao"),
    }
}

#[test]
fn perfil_poe_um_tempo_por_operacao() {
    let st = modelo(false, false, 1, GgmlType::Q4_K);
    let p = build_plan(&st, &knobs(), Modo::Decode).unwrap();
    let b = marcar_barreiras(&p, &st, false);
    let c = record_token(&st, &p, &b, &passo(0, 1), Modo::Decode, &SplitsForcados { n: 0 }, true);
    assert!(matches!(c[0], Comando::ZeraTempos { n: 23 }));
    assert!(matches!(c[1], Comando::Tempo { slot: 0, topo: true }));
    let tempos = c.iter().filter(|x| matches!(x, Comando::Tempo { topo: false, .. })).count();
    assert_eq!(tempos, p.len());
    let barreiras = c.iter().filter(|x| matches!(x, Comando::Barreira)).count();
    assert_eq!(barreiras, p.len() + 1);
}

#[test]
fn k_direto_no_cache() {
    let st = modelo(true, false, 4, GgmlType::Q8_0);
    let k = Knobs { rope_kv: true, ..knobs() };
    let p = build_plan(&st, &k, Modo::Batch).unwrap();
    assert!(dbg_plano(&p).contains(&"rope_kv"));
    let b = vec![true; p.len()];
    let c = record_token(&st, &p, &b, &passo(10, 4), Modo::Batch, &SplitsForcados { n: 0 }, false);
    let push = c
        .iter()
        .find_map(|x| match x {
            Comando::Despacha { pipe: PipeId::RopeKv, push, .. } => Some(push.clone()),
            _ => None,
        })
        .unwrap();
    // The block starts at position 7.
    assert_eq!(palavras_de(&push)[4], 7 * 32);
    // Only V is copied.
    assert_eq!(
        c.iter()
            .filter(|x| matches!(x, Comando::Copia { dst_off: 896, size: 512, .. }))
            .count(),
        1
    );
}

#[test]
fn comandos_de_uma_proposta() {
    let st = modelo(true, true, 1, GgmlType::Q8_0);
    let m = st.mtp.unwrap();
    let p = build_plan_mtp(&st, &knobs());
    let b = marcar_barreiras(&p, &st, false);
    let livre = SplitsForcados { n: 0 };
    let c = record_mtp(&st, &p, &b, &passo(3, 1), Hidden::Tronco(1), &livre);
    assert!(c.iter().any(|x| matches!(
        x,
        Comando::Copia { src, dst, src_off: 256, size: 256, .. }
            if *src == st.a.b_x.buffer && *dst == m.b_h.buffer
    )));
    assert!(c.iter().any(|x| matches!(
        x,
        Comando::Copia { dst, dst_off: 384, size: 128, .. } if *dst == m.kcache.buffer
    )));
    let d = record_mtp(&st, &p, &b, &passo(3, 1), Hidden::Cabeca, &livre);
    assert!(d.iter().any(|x| matches!(
        x,
        Comando::Copia { src, src_off: 0, .. } if *src == m.b_x.buffer
    )));
    // A plan without marks has a barrier before each operation.
    let e = record_mtp(&st, &p, &Vec::new(), &passo(3, 1), Hidden::Cabeca, &livre);
    let barreiras = e.iter().filter(|x| matches!(x, Comando::Barreira)).count();
    assert_eq!(barreiras, p.len() + 1);
    let sem = modelo(true, false, 1, GgmlType::Q8_0);
    assert!(record_mtp(&sem, &p, &b, &passo(3, 1), Hidden::Cabeca, &livre).is_empty());
}

#[test]
fn planos_de_um_shard() {
    let st = modelo(true, true, 8, GgmlType::Q4_K);
    let p = planos(&st, &knobs(), true, false).unwrap();
    assert_eq!(p.plan.len(), p.barreiras.len());
    assert!(!p.plan_batch.is_empty() && !p.plan_verify.is_empty() && !p.mtp_plan.is_empty());
    let maior = p.plan.len().max(p.plan_batch.len()).max(p.plan_verify.len());
    assert_eq!(slots_de_tempo(&p), Ok(maior as u32 + 1));
    let st = modelo(true, false, 1, GgmlType::Q4_K);
    let p = planos(&st, &knobs(), false, true).unwrap();
    assert!(p.plan_batch.is_empty() && p.plan_verify.is_empty() && p.mtp_plan.is_empty());
    assert!(p.barreiras.iter().all(|b| *b));
    assert!(planos(&st, &knobs(), true, false).is_err());
}

#[test]
fn sessao_vai_e_volta() {
    let c = modelo(true, true, 4, GgmlType::Q8_0).cfg;
    let mut s = Sessao::nova();
    assert_eq!(passo_do_bloco(&c, 4, 0), Ok((3, Modo::Batch)));
    assert_eq!(passo_do_bloco(&c, 1, 2047), Ok((2047, Modo::Decode)));
    assert!(passo_do_bloco(&c, 0, 0).is_err());
    assert!(passo_do_bloco(&c, 3, 0).is_err(), "o plano do bloco tem largura fixa");
    assert!(passo_do_bloco(&c, 4, 2045).is_err());
    s.avancou(3);
    assert!(!s.pode_restaurar() && !s.restaurou());
    s.marcou();
    assert_eq!(passo_do_verify(&c, true, 4), Ok(6));
    assert!(passo_do_verify(&c, false, 4).is_err());
    assert!(passo_do_verify(&c, true, 2046).is_err());
    s.avancou(6);
    assert_eq!(s.rollback_verify(1), Ok(0));
    assert_eq!(s.len, 5);
    assert!(s.rollback_verify(0).is_err() && s.rollback_verify(3).is_err());
    assert!(s.restaurou());
    assert_eq!(s.len, 4);
    assert_eq!(s.posicao_da_proposta(&c, true, 64), Ok(0));
    s.propos();
    assert_eq!(s.posicao_da_proposta(&c, true, 64), Ok(1));
    assert!(s.posicao_da_proposta(&c, true, 63).is_err());
    assert!(s.posicao_da_proposta(&c, false, 64).is_err());
    s.reset_len();
    assert_eq!(s, Sessao::nova());
    assert_eq!(saida_len(&c, Modo::Decode, 1), 100);
    assert_eq!(saida_len(&c, Modo::Verify, 3), 300);
}

#[test]
fn copias_do_estado_recorrente() {
    let st = modelo(true, true, 1, GgmlType::Q8_0);
    let da = st.aux[0].delta.as_ref().unwrap();
    let snap = vec![(Buf { buffer: 900, size: 1024 }, Buf { buffer: 901, size: 700 })];
    let ida = copias_snapshot(&st.aux, &snap, false);
    assert_eq!(
        ida,
        vec![
            Copia { src: da.estado.buffer, dst: 900, size: 1024 },
            Copia { src: da.janela.buffer, dst: 901, size: 700 },
        ]
    );
    let volta = copias_snapshot(&st.aux, &snap, true);
    assert_eq!(volta[1], Copia { src: 901, dst: da.janela.buffer, size: 700 });
    assert!(copias_snapshot(&st.aux, &Vec::new(), false).is_empty());
    assert_eq!(zerar(&st.aux), vec![da.estado, da.janela]);
    let r = gravar_rollback(&st.aux);
    assert_eq!(r.len(), 2);
    assert_eq!(
        r[1][0],
        Copia { src: da.estado_snap[1].buffer, dst: da.estado.buffer, size: 1024 }
    );
    assert!(gravar_rollback(&modelo(true, false, 1, GgmlType::Q8_0).aux).is_empty());
    assert!(gravar_rollback(&modelo(false, false, 1, GgmlType::Q8_0).aux).is_empty());
}

/// A device that remembers: copies are copies, and a dispatch changes every
/// buffer that it is bound to.
struct Maquina {
    mem: HashMap<u64, Vec<u8>>,
    passos: u8,
}

impl Maquina {
    fn de(st: &ResidentState, snap: &Vec<(Buf, Buf)>) -> Self {
        let mem = a_liberar(st, snap)
            .iter()
            .map(|b| (b.buffer, vec![b.buffer as u8; b.size as usize]))
            .collect();
        Maquina { mem, passos: 0 }
    }

    fn copia(&mut self, src: u64, dst: u64, so: usize, dst_off: usize, n: usize) {
        let v = self.mem[&src][so..so + n].to_vec();
        self.mem.get_mut(&dst).unwrap()[dst_off..dst_off + n].copy_from_slice(&v);
    }

    fn copias(&mut self, c: &[Copia]) {
        for x in c {
            self.copia(x.src, x.dst, 0, 0, x.size as usize);
        }
    }

    /// Runs the commands; what `b` holds after each dispatch of `visto`.
    fn roda(&mut self, plan: &[PlannedOp], c: &[Comando], visto: PipeId, b: Buf) -> Vec<Vec<u8>> {
        let mut r = Vec::new();
        for x in c {
            match x {
                Comando::Copia { src, dst, src_off, dst_off, size } => self.copia(
                    *src,
                    *dst,
                    *src_off as usize,
                    *dst_off as usize,
                    *size as usize,
                ),
                Comando::Despacha { op, parte, pipe, .. } => {
                    let d = match (&plan[*op], parte) {
                        (PlannedOp::Atencao { curto, .. }, Parte::Curto) => curto,
                        (PlannedOp::Atencao { split, .. }, Parte::Split) => split,
                        (PlannedOp::Atencao { reduce, .. }, _) => reduce,
                        (o, _) => despacho(o),
                    };
                    self.passos = self.passos.wrapping_add(1);
                    for f in &d.binds {
                        let m = self.mem.get_mut(&f.buffer).unwrap();
                        m.iter_mut().for_each(|y| *y = y.wrapping_mul(3) ^ self.passos);
                    }
                    if *pipe == visto {
                        r.push(self.mem[&b.buffer].clone());
                    }
                }
                _ => {}
            }
        }
        r
    }
}

#[test]
fn rollback_volta_ao_token_mantido() {
    let st = modelo(true, true, 1, GgmlType::Q8_0);
    let da = st.aux[0].delta.as_ref().unwrap();
    let p = build_plan(&st, &knobs(), Modo::Verify).unwrap();
    let b = marcar_barreiras(&p, &st, false);
    let livre = SplitsForcados { n: 0 };
    let c = record_token(&st, &p, &b, &passo(6, 3), Modo::Verify, &livre, false);
    let volta = gravar_rollback(&st.aux);
    for manter in 1..3 {
        for (pipe, buf) in [(PipeId::DeltaNet, da.estado), (PipeId::DnConv, da.janela)] {
            let mut m = Maquina::de(&st, &Vec::new());
            let vistos = m.roda(&p, &c, pipe, buf);
            assert_eq!(vistos.len(), 3, "um despacho por token");
            assert_eq!(m.mem[&buf.buffer], vistos[2]);
            m.copias(&volta[manter - 1]);
            assert_eq!(m.mem[&buf.buffer], vistos[manter - 1], "manter={manter}");
            assert_ne!(vistos[manter - 1], vistos[manter]);
        }
    }
}

#[test]
fn snapshot_sobrevive_aos_passos() {
    let st = modelo(true, true, 4, GgmlType::Q8_0);
    let da = st.aux[0].delta.as_ref().unwrap();
    let snap = vec![(Buf { buffer: 900, size: 1024 }, Buf { buffer: 901, size: 768 })];
    let mut m = Maquina::de(&st, &snap);
    let mut s = Sessao::nova();
    let livre = SplitsForcados { n: 0 };
    let um = build_plan(&st, &knobs(), Modo::Decode).unwrap();
    let bloco = build_plan(&st, &knobs(), Modo::Batch).unwrap();
    let verify = build_plan(&st, &knobs(), Modo::Verify).unwrap();
    let cabeca = build_plan_mtp(&st, &knobs());
    let roda = |m: &mut Maquina, p: &Vec<PlannedOp>, q: Passo, modo: Modo| {
        let b = vec![true; p.len()];
        let c = record_token(&st, p, &b, &q, modo, &livre, false);
        m.roda(p, &c, PipeId::DeltaNet, da.estado);
    };
    roda(&mut m, &um, passo(0, 1), Modo::Decode);
    s.avancou(0);
    m.copias(&copias_snapshot(&st.aux, &snap, false));
    s.marcou();
    let (estado, janela) = (m.mem[&da.estado.buffer].clone(), m.mem[&da.janela.buffer].clone());
    for _ in 0..2 {
        roda(&mut m, &bloco, passo(4, 4), Modo::Batch);
        s.avancou(4);
        roda(&mut m, &verify, passo(7, 3), Modo::Verify);
        s.avancou(7);
        let ponto = s.rollback_verify(2).unwrap();
        m.copias(&gravar_rollback(&st.aux)[ponto]);
        let b = vec![true; cabeca.len()];
        let c = record_mtp(&st, &cabeca, &b, &passo(0, 1), Hidden::Tronco(0), &livre);
        m.roda(&cabeca, &c, PipeId::DeltaNet, da.estado);
        s.propos();
        assert_ne!(m.mem[&da.estado.buffer], estado);
        m.copias(&copias_snapshot(&st.aux, &snap, true));
        assert!(s.restaurou());
        assert_eq!(m.mem[&da.estado.buffer], estado);
        assert_eq!(m.mem[&da.janela.buffer], janela);
        assert_eq!(s.len, 1);
    }
}

#[test]
fn recursos_de_um_shard() {
    let st = modelo(true, true, 1, GgmlType::Q8_0);
    let snap = vec![(Buf { buffer: 900, size: 1 }, Buf { buffer: 901, size: 1 })];
    let l = a_liberar(&st, &snap);
    let mut ids: Vec<u64> = l.iter().map(|b| b.buffer).collect();
    assert!(ids.contains(&900) && ids.contains(&901));
    assert_eq!(l.len(), 6 + 7 + 1 + 2 + (4 + 7 + 4) + 4 + 2 + 20 + 10 + 23);
    ids.sort_unstable();
    ids.dedup();
    assert_eq!(ids.len(), l.len(), "cada buffer uma vez");
}

#[test]
fn tabela_do_perfil() {
    let st = modelo(false, false, 1, GgmlType::Q4_K);
    let p = build_plan(&st, &knobs(), Modo::Decode).unwrap();
    let mut acumulado = Vec::new();
    acumula(&mut acumulado, &duracoes(&[10, 15, 12, 20]));
    assert_eq!(acumulado, vec![5, 0, 8]);
    acumula(&mut acumulado, &[1, 1, 1, 1]);
    assert_eq!(acumulado, vec![6, 1, 9, 1]);
    // embed 6, norm_fused 1, norm_p2 9, matvec_q4k 1.
    let (linhas, total, bytes) = tabela(&p, &acumulado);
    let r: Vec<_> = linhas.iter().map(|l| (l.rotulo, l.ns, l.n)).collect();
    assert_eq!(
        r,
        vec![("norm_p2", 9, 1), ("embed", 6, 1), ("matvec_q4k", 1, 1), ("norm_fused", 1, 1)]
    );
    assert_eq!(total, 17);
    assert_eq!(bytes, linhas.iter().map(|l| l.bytes).sum::<u128>());
    assert_eq!(antes_do_fim(&[10, 15, 12, 20]), vec![10, 5, 8, 0]);
    let s = spans_de(&p, &[10, 5, 0]);
    assert_eq!((s[1].name, s[1].start, s[1].end, s.len()), ("norm_fused", 5, 0, 2));
    assert!(guarda_spans(Modo::Decode, 8, 8) && !guarda_spans(Modo::Decode, 9, 8));
    assert!(!guarda_spans(Modo::Batch, 1, 8));
}

#[test]
fn pipelines_compiladas_para_o_plano() {
    let c = Compilacao { k: knobs(), n_batch: 24, lds_pad: 5 };
    assert_eq!(todas().len(), 29);
    let d = descreve(PipeId::MatvecQ4KV, &c);
    assert_eq!((d.n_bindings, d.push_size), (5, 16));
    assert_eq!(d.constantes, vec![(0, 128), (1, 2), (2, 3), (3, 5)]);
    assert_eq!(descreve(PipeId::MatvecQ5KB, &c).constantes, vec![(0, 64), (1, 1), (2, 24)]);
    assert_eq!(descreve(PipeId::MulMmQ4K, &c).constantes, vec![(0, 24)]);
    let c = Compilacao { n_batch: 20, ..c };
    assert_eq!(descreve(PipeId::MulMmQ4K, &c).constantes, vec![(0, 8)]);
    assert_eq!(descreve(PipeId::NormP2, &c).shader, Shader::NormP2);
    assert_eq!(DnPipe::L2Qk.pipe(), PipeId::DnL2Qk);
    assert_eq!(groups_for(65), 2);
    // Every dispatch of a plan fits its pipeline.
    let st = modelo(true, true, 20, GgmlType::Q5_K);
    for modo in [Modo::Decode, Modo::Batch, Modo::Verify] {
        for op in build_plan(&st, &knobs(), modo).unwrap() {
            if let PlannedOp::Dispatch(d) = op {
                let p = descreve(d.pipe, &c);
                assert_eq!(d.binds.len(), p.n_bindings as usize);
                if let PushSpec::Static(w) = &d.push {
                    assert_eq!(w.len() * 4, p.push_size as usize);
                }
            }
        }
    }
}

#[test]
fn kernels_sozinhos() {
    let e = dbg_rmsnorm(64, 64, 9);
    assert_eq!((e.tamanhos, palavras_de(&e.push)), (vec![256, 256, 256], vec![64, 9]));
    let e = dbg_rope_xy(64, 8, 4, 16, 16, 3, 2);
    assert_eq!((e.x, e.y, palavras_de(&e.push)), (1, 2, vec![4, 16, 16, 3, 16]));
    let e = dbg_add(65, 65);
    assert_eq!((e.x, e.tamanhos), (2, vec![260, 260]));
    let f = FormaAtencao {
        q_len: 64,
        k_len: 320,
        v_len: 320,
        n_head: 4,
        n_head_kv: 2,
        head_dim: 16,
        total_len: 10,
        n_tokens: 1,
    };
    let e = dbg_attention(&f).unwrap();
    assert_eq!(e.tamanhos, vec![256, 1280, 1280, 256]);
    assert_eq!(palavras_de(&e.push), vec![4, 2, 16, 10, 32, 0, 16]);
    let (a, b) = dbg_attention_split(&f, 3).unwrap();
    assert_eq!((a.z, a.tamanhos[3]), (3, 4 * 3 * 18 * 4));
    assert_eq!((b.z, palavras_de(&b.push)), (1, vec![4, 16, 3]));
    assert!(dbg_attention_split(&f, 0).is_err());
    assert!(dbg_attention(&FormaAtencao { head_dim: 257, ..f }).is_err());
    assert_eq!(dbg_attention_bench(&f, 1).0, PipeId::Attention);
    assert_eq!(dbg_attention_bench(&f, 2).0, PipeId::AttentionSplit);
    assert_eq!((bytes_do_ensaio(0), bytes_do_ensaio(3)), (4, 12));
    let st = modelo(true, false, 1, GgmlType::Q8_0);
    assert_eq!(dbg_dn_buf(&st.a, "gb"), Some(st.a.dn.unwrap().gb));
    assert_eq!(dbg_dn_buf(&st.a, "x"), Some(st.a.b_x));
    assert_eq!(dbg_dn_buf(&st.a, "nada"), None);
    assert_eq!(dbg_dn_buf(&modelo(false, false, 1, GgmlType::Q8_0).a, "x"), None);
}

#[test]
fn bancada_com_pesos_fixos() {
    let mut r = Xs { x: 1 };
    assert_eq!(r.prox(), 1_082_269_761);
    let w = pesos_q4k(512, 3, 7);
    assert_eq!(w.len(), 6 * 144);
    for sb in w.chunks(144) {
        assert_eq!(&sb[..4], &[0, 0x2C, 0, 0x24]);
    }
    let mut x = Xs { x: 7 };
    assert_eq!(w[4], x.prox() as u8);
    let k = Kernel { shader: Shader::MatvecQ4K, spec: vec![(0, 64), (1, 2), (2, 2)], rows_por_wg: 2 };
    let m = medir(PipeId::MatvecQ4K, k, 17 * 144, 512, 256, 17, 2);
    assert_eq!(m.produto.tamanhos, vec![17 * 144, 512, 64, 2 * 17 * 4, 64]);
    assert_eq!(palavras_de(&m.produto.push), vec![256, 17, 0, 0]);
    assert_eq!((m.produto.grupos, m.produto.y_len), (9, 34));
    assert_eq!(m.produto.constantes, vec![(0, 64), (1, 2), (2, 2)]);
    let c = m.comandos;
    assert_eq!(c.len(), 2 + 2 * 200 + 1);
    assert!(matches!(&c[2], Comando::Despacha { x: 9, push, .. } if *push == m.produto.push));
    assert!(matches!(c[3], Comando::Barreira));
    assert!(matches!(c[402], Comando::Tempo { slot: 1, topo: false }));
}
