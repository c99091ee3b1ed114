//! The knobs, and the limits of the machine.

use llama_rs::vulkan::alocador::{Allocation, GpuAllocator, Pedido};
use llama_rs::vulkan::ambiente::{
    batch_size, gemm_prefill, le_numero, ligado, matvec_geom, matvec_geom_batch, matvec_lds_pad,
    max_trace_tokens, rope_no_kv, u32_da_var, usize_da_var,
};
use llama_rs::vulkan::bancada::Xs;
use llama_rs::vulkan::contas::{palavras_de, palavras_em_bytes, teto_u32, teto_u64, teto_usize, u32_ou, u32_sat};
use llama_rs::vulkan::estado::{
    Ativacoes, Buf, Cfg, DeltaNetConfig, LayerAux, LayerQ, MixerQ, QWeight, ResidentState,
};
use llama_rs::vulkan::gravacao::{Hidden, Passo};
use llama_rs::vulkan::layer_split::split_points;
use llama_rs::vulkan::layout::vram_pesos;
use llama_rs::vulkan::limites::{
    cabe_aqui, cabe_mtp_aqui, formas_cabem, mensuravel_aqui, n_slots, passo_cabe, proposta_cabe,
};
use llama_rs::vulkan::ops::{sobrepoe, Faixa, GgmlType};
use llama_rs::vulkan::shard::{splits_do_kv, Shard, SplitsForcados};

#[test]
fn numeros_de_variaveis() {
    assert_eq!(le_numero("42", 100), Some(42));
    assert_eq!(le_numero("+42", 100), Some(42));
    assert_eq!(le_numero("101", 100), None);
    assert_eq!(le_numero("-1", 100), None);
    assert_eq!(le_numero("", 100), None);
    assert_eq!(le_numero("+", 100), None);
    assert_eq!(le_numero("4 2", 100), None);
    assert_eq!(usize_da_var(Some("7")), Some(7));
    assert_eq!(usize_da_var(None), None);
    assert_eq!(u32_da_var(Some("4294967296")), None);
    assert_eq!(u32_da_var(Some("4294967295")), Some(u32::MAX));
}

#[test]
fn tokens_por_bloco() {
    assert_eq!(batch_size(None), 24);
    assert_eq!(batch_size(Some("8")), 8);
    assert_eq!(batch_size(Some("0")), 1);
    assert_eq!(batch_size(Some("100")), 32);
    assert_eq!(batch_size(Some("x")), 24);
}

#[test]
fn geometria_dos_kernels() {
    assert_eq!(matvec_geom_batch(None), (64, 1));
    assert_eq!(matvec_geom_batch(Some("256,2")), (256, 2));
    assert_eq!(matvec_geom_batch(Some(" 128 , 4 ")), (128, 4));
    for ruim in ["96,1", "64", "64,5", "64,0", "2048,1", "0,1", "a,b", "64,1,1"] {
        assert_eq!(matvec_geom_batch(Some(ruim)), (64, 1), "{ruim}");
        assert_eq!(matvec_geom(Some(ruim)), matvec_geom(None), "{ruim}");
    }
    assert_eq!(matvec_geom(Some("1024,4")), (1024, 4));
}

#[test]
fn chaves_de_ligar() {
    assert!(gemm_prefill(None) && gemm_prefill(Some("1")) && !gemm_prefill(Some("0")));
    assert!(!rope_no_kv(None) && rope_no_kv(Some("1")) && !rope_no_kv(Some("2")));
    assert!(!ligado(None) && ligado(Some("1")) && ligado(Some("")) && !ligado(Some("0")));
    assert_eq!(max_trace_tokens(None), 8);
    assert_eq!(max_trace_tokens(Some("3")), 3);
    assert_eq!(matvec_lds_pad(None), 0);
    assert_eq!(matvec_lds_pad(Some("16")), 16);
    assert_eq!(matvec_lds_pad(Some("64")), 48);
}

#[test]
fn arredondamentos() {
    assert_eq!((teto_u32(0, 64), teto_u32(64, 64), teto_u32(65, 64)), (0, 1, 2));
    assert_eq!((teto_u64(7, 2), teto_usize(8, 2)), (4, 4));
    assert_eq!((u32_sat(1 << 40), u32_sat(5)), (u32::MAX, 5));
    assert_eq!((u32_ou(1 << 40, 1), u32_ou(5, 1)), (1, 5));
}

#[test]
fn palavras_vao_e_voltam() {
    let w = vec![0, 1, 0x1234_5678, u32::MAX];
    let b = palavras_em_bytes(&w);
    assert_eq!(&b[8..12], &[0x78, 0x56, 0x34, 0x12]);
    assert_eq!(palavras_de(&b), w);
}

#[test]
fn trechos_que_se_cruzam() {
    let f = |buffer, offset, bytes| Faixa { buffer, offset, bytes };
    assert!(sobrepoe(&f(1, 0, 10), &f(1, 9, 1)));
    assert!(!sobrepoe(&f(1, 0, 10), &f(1, 10, 5)));
    assert!(!sobrepoe(&f(1, 0, 10), &f(2, 0, 10)));
    assert!(sobrepoe(&f(1, u64::MAX, u64::MAX), &f(1, u64::MAX - 1, u64::MAX)));
}

#[test]
fn alocacoes_nao_se_sobrepoem() {
    let mut a = GpuAllocator::new(&[true], 1 << 20).unwrap();
    let mut feitas: Vec<Allocation> = Vec::new();
    let mut r = Xs { x: 9 };
    for i in 0..200 {
        let n = r.prox() % 20_000;
        let x = match a.alocar(n) {
            Pedido::Pronto(x) => x,
            Pedido::Falta { chunk_size, size } => a.novo_chunk(i, chunk_size, size),
        };
        assert!(x.size >= n && x.offset % 256 == 0);
        for y in &feitas {
            assert!(
                x.chunk_idx != y.chunk_idx
                    || x.offset + x.size <= y.offset
                    || y.offset + y.size <= x.offset
            );
        }
        feitas.push(x);
    }
}

#[test]
fn gerador_nunca_chega_a_zero() {
    let mut r = Xs { x: 1 };
    assert!((0..1000).all(|_| r.prox() != 0));
    let mut z = Xs { x: 0 };
    assert_eq!(z.prox(), 0);
}

#[test]
fn memoria_igual_divide_por_igual() {
    for n in [1usize, 2, 3, 5, 7] {
        for camadas in [0usize, 1, 47, 48, 64] {
            let p = split_points(&vec![13; n], camadas);
            for (a, b) in &p {
                let c = b - a;
                assert!(c == camadas / n || c == camadas / n + 1, "{n} {camadas}");
            }
        }
    }
}

#[test]
fn mais_cache_nunca_da_menos_fatias() {
    let s = SplitsForcados { n: 0 };
    let mut antes = 0;
    for total in (0..20_000).step_by(37) {
        let n = splits_do_kv(&s, total);
        assert!(n >= antes);
        antes = n;
    }
}

#[test]
fn pesos_cabem_no_limite() {
    for n in [0usize, 34, 68, 340] {
        assert!(vram_pesos(&[n], 0) >= (n / 34 * 36) as u64);
    }
}

fn buf() -> Buf {
    Buf { buffer: 1, size: 0 }
}

/// A model of one linear-attention layer and one attention layer.
fn modelo(mexe: impl Fn(&mut Cfg)) -> ResidentState {
    let b = buf();
    let w = QWeight { ty: GgmlType::Q4_K, gpu: b };
    let mut cfg = Cfg {
        n_embd: 64,
        n_layer: 2,
        n_head: 4,
        n_head_kv: 2,
        head_dim: 16,
        n_ff: 128,
        rope_dim: 16,
        kv_dim: 32,
        vocab: 100,
        ctx: 32,
        rms_eps: 0,
        shard: Shard::whole(0, 2),
        delta_net: Some(DeltaNetConfig {
            d_state: 8,
            n_k_heads: 2,
            n_v_heads: 4,
            d_conv: 4,
            head_v_dim: 8,
        }),
        n_batch: 8,
    };
    mexe(&mut cfg);
    let aux = || LayerAux {
        attn_norm: b,
        ffn_norm: b,
        q_bias: None,
        k_bias: None,
        v_bias: None,
        q_norm: None,
        k_norm: None,
        delta: None,
    };
    let camada = |mixer| LayerQ { mixer, ffn_gate: w, ffn_up: w, ffn_down: w };
    ResidentState {
        cfg,
        qw: vec![
            camada(MixerQ::Delta { attn_qkv: w, attn_gate: w, ssm_out: w }),
            camada(MixerQ::Attn { attn_q: w, attn_k: w, attn_v: w, attn_output: w }),
        ],
        output_w: w,
        aux: vec![aux(), aux()],
        output_norm_buf: b,
        freq_buf: b,
        a: Ativacoes {
            embd_stage: b,
            kcache: b,
            vcache: b,
            b_x: b,
            b_normed: b,
            b_parciais: b,
            b_q: b,
            b_k: b,
            b_v: b,
            b_attn: b,
            b_attn_split: b,
            b_proj: b,
            b_gate: b,
            b_up: b,
            b_act: b,
            b_logits: b,
            b_ffn: b,
            b_xq: b,
            b_xd: b,
            logits_host: b,
            dn: None,
        },
        mtp: None,
    }
}

#[test]
fn limites_de_um_modelo() {
    let st = modelo(|_| {});
    assert_eq!(n_slots(&st), 1);
    assert!(cabe_aqui(&st, 8) && !cabe_aqui(&st, 0));
    assert!(cabe_mtp_aqui(&st.cfg) && formas_cabem(&st.cfg));
    assert!(mensuravel_aqui(&st.cfg, 1, true) && mensuravel_aqui(&st.cfg, 1, false));
    let enorme = usize::MAX / 2;
    assert!(!cabe_aqui(&modelo(|c| c.n_embd = enorme), 1));
    assert!(!cabe_aqui(&modelo(|c| c.ctx = enorme), 1));
    assert!(!cabe_aqui(&modelo(|c| c.n_ff = enorme / 8), 8));
    assert!(cabe_aqui(&modelo(|c| c.n_ff = enorme / 8), 1));
    assert!(!cabe_aqui(&modelo(|c| c.delta_net.as_mut().unwrap().n_k_heads = 0), 1));
    assert!(!cabe_aqui(&modelo(|c| c.delta_net.as_mut().unwrap().d_state = enorme), 1));
    assert!(!cabe_mtp_aqui(&modelo(|c| c.vocab = enorme).cfg));
    assert!(!formas_cabem(&modelo(|c| c.n_head = enorme).cfg));
    assert!(!mensuravel_aqui(&modelo(|c| c.delta_net.as_mut().unwrap().d_conv = 0).cfg, 1, false));
    assert!(!mensuravel_aqui(&modelo(|c| c.n_batch = 0).cfg, 1, false));
    assert!(mensuravel_aqui(&modelo(|c| c.n_batch = 0).cfg, 1, true));
}

#[test]
fn limites_de_um_passo() {
    let st = modelo(|_| {});
    let q = |pos, n_tok| Passo { pos, pos_bits: 0, n_tok };
    assert!(passo_cabe(&st, &q(31, 8)) && passo_cabe(&st, &q(0, 1)));
    assert!(!passo_cabe(&st, &q(32, 1)), "fora do cache");
    assert!(!passo_cabe(&st, &q(0, 2)), "o bloco comeca antes do cache");
    assert!(!passo_cabe(&st, &q(0, 0)));
    assert!(proposta_cabe(&st, &q(31, 1), Hidden::Tronco(2)));
    assert!(!proposta_cabe(&st, &q(31, 1), Hidden::Tronco(usize::MAX)));
    assert!(!proposta_cabe(&st, &q(32, 1), Hidden::Cabeca));
}
