//! Device memory: the allocator, the layout of weights and their upload.

use llama_rs::vulkan::alocador::{
    align_up, tamanho_do_chunk, Allocation, GpuAllocator, Pedido, MAX_CHUNK_BYTES,
};
use llama_rs::vulkan::erro::{AllocError, TensorError, VkResult};
use llama_rs::vulkan::layout::{
    cfg_do_shard, copias_por_camada, formas_camada, formas_da_cabeca, intercala, tamanhos,
    vram_pesos, Forma, LlamaConfig, Peso,
};
use llama_rs::vulkan::estado::DeltaNetConfig;
use llama_rs::vulkan::model_gpu::{sintetico_cabe, upload_synthetic};
use llama_rs::vulkan::ops::GgmlType;
use llama_rs::vulkan::resident::{chamada, Buffers, Pesos};
use llama_rs::vulkan::shard::Shard;
use llama_rs::vulkan::tensor::{
    confere_pedido, flags_de_leitura, flags_para, layout_de, pad_q6_k_into, repack_q8_0,
    repack_q8_0_into, tipo_de_memoria, transformar, BLOCOS_POR_FATIA, DEVICE_LOCAL, HOST_CACHED,
    HOST_COHERENT, HOST_VISIBLE,
};
use llama_rs::vulkan::uploader::{peca_crua, peca_de, Acao, Uploader, STAGING_BYTES};

#[test]
fn align_up_already_aligned() {
    assert_eq!(align_up(256, 256), 256);
    assert_eq!(align_up(512, 256), 512);
}

#[test]
fn align_up_unaligned() {
    assert_eq!(align_up(1, 256), 256);
    assert_eq!(align_up(255, 256), 256);
    assert_eq!(align_up(257, 256), 512);
}

#[test]
fn align_up_zero() {
    assert_eq!(align_up(0, 256), 0);
}

#[test]
fn chunk_cheio_enquanto_falta_muito() {
    assert_eq!(tamanho_do_chunk(1_000, 9_000_000_000), MAX_CHUNK_BYTES);
}

#[test]
fn ultimo_chunk_so_o_que_falta() {
    assert_eq!(tamanho_do_chunk(1_000, 300_000_000), 300_000_000);
    assert_eq!(tamanho_do_chunk(4_096, 0), 4_096);
}

#[test]
fn chunk_nunca_menor_que_o_pedido() {
    let grande = MAX_CHUNK_BYTES + 1;
    assert_eq!(tamanho_do_chunk(grande, 100), grande);
    assert_eq!(tamanho_do_chunk(grande, 9_000_000_000), grande);
}

/// Takes memory from an allocator, with made up handles for new chunks.
fn aloca(a: &mut GpuAllocator, size: u64, memoria: u64) -> Allocation {
    match a.alocar(size) {
        Pedido::Pronto(x) => x,
        Pedido::Falta { chunk_size, size } => a.novo_chunk(memoria, chunk_size, size),
    }
}

#[test]
fn sub_allocator_chunks_independentes_para_tensores_grandes() {
    let mut alloc = GpuAllocator::new(&[true], 3 * MAX_CHUNK_BYTES).unwrap();
    let a = aloca(&mut alloc, 100_000_000, 7);
    let b = aloca(&mut alloc, 200_000_000, 8);
    assert_eq!(a.chunk_idx, b.chunk_idx, "duas alocacoes pequenas devem estar no mesmo chunk");
    assert_eq!(a.offset, 0, "primeira alocacao deve comecar no offset 0");
    assert!(b.offset > 0, "segunda alocacao deve ter offset positivo");
    assert_eq!(b.offset, 100_000_000u64.div_ceil(256) * 256);
    assert_eq!(alloc.memoria(&a), Some(7));
    assert_eq!(alloc.memoria(&b), Some(7));
    // Does not fit the rest of the chunk.
    let c = aloca(&mut alloc, 1_400_000_000, 9);
    assert_eq!(c.chunk_idx, 1);
    assert_eq!(alloc.memoria(&c), Some(9));
    alloc.free(a);
    assert_eq!(alloc.cleanup(), vec![7, 9]);
    assert_eq!(alloc.memoria(&c), None);
    assert!(alloc.cleanup().is_empty());
}

#[test]
fn alocador_escolhe_a_primeira_memoria_local() {
    assert_eq!(GpuAllocator::new(&[false, false, true, true], 1).unwrap().mem_type_idx(), 2);
    assert!(matches!(GpuAllocator::new(&[false], 1), Err(AllocError::NoMemoryType)));
    assert!(matches!(GpuAllocator::new(&[], 1), Err(AllocError::NoMemoryType)));
}

#[test]
fn alocador_encolhe_o_ultimo_chunk() {
    let mut a = GpuAllocator::new(&[true], 2_000_000_000).unwrap();
    assert_eq!(a.alocar(10), Pedido::Falta { chunk_size: MAX_CHUNK_BYTES, size: 256 });
    assert_eq!(a.alocar(10), Pedido::Falta { chunk_size: 500_000_000, size: 256 });
    assert_eq!(a.alocar(10), Pedido::Falta { chunk_size: 256, size: 256 });
}

fn bytes_pseudo(n: usize) -> Vec<u8> {
    let mut x: u32 = 987_654_321;
    (0..n)
        .map(|_| {
            x = x.wrapping_mul(1_664_525).wrapping_add(1_013_904_223);
            (x >> 24) as u8
        })
        .collect()
}

fn repack_serial(src: &[u8]) -> Vec<u8> {
    let n = src.len() / 34;
    let mut out = vec![0u8; n * 36];
    for i in 0..n {
        out[i * 36..i * 36 + 2].copy_from_slice(&src[i * 34..i * 34 + 2]);
        out[i * 36 + 4..i * 36 + 36].copy_from_slice(&src[i * 34 + 2..(i + 1) * 34]);
    }
    out
}

fn pad_serial(src: &[u8]) -> Vec<u8> {
    let n = src.len() / 210;
    let mut out = vec![0u8; n * 212];
    for i in 0..n {
        out[i * 212..i * 212 + 210].copy_from_slice(&src[i * 210..(i + 1) * 210]);
    }
    out
}

#[test]
fn repack_q8_0_paralelo_da_os_mesmos_bytes_do_serial() {
    for n in [1, 37, BLOCOS_POR_FATIA, BLOCOS_POR_FATIA * 2 + 37] {
        let src = bytes_pseudo(n * 34);
        let mut dst = vec![0xAAu8; n * 36];
        repack_q8_0_into(&src, &mut dst);
        assert_eq!(dst, repack_serial(&src), "n={n} blocos");
        // The same slice by slice, as several threads do it.
        let mut fatias = vec![0xAAu8; n * 36];
        for (d, s) in fatias
            .chunks_mut(BLOCOS_POR_FATIA * 36)
            .zip(src.chunks(BLOCOS_POR_FATIA * 34))
        {
            transformar(GgmlType::Q8_0, s, d);
        }
        assert_eq!(fatias, dst);
    }
}

#[test]
fn pad_q6_k_paralelo_da_os_mesmos_bytes_do_serial() {
    for n in [1, 5, BLOCOS_POR_FATIA + 3] {
        let src = bytes_pseudo(n * 210);
        let mut dst = vec![0x5Bu8; n * 212];
        pad_q6_k_into(&src, &mut dst);
        assert_eq!(dst, pad_serial(&src), "n={n} superblocos");
        let mut fatias = vec![0x5Bu8; n * 212];
        for (d, s) in fatias
            .chunks_mut(BLOCOS_POR_FATIA * 212)
            .zip(src.chunks(BLOCOS_POR_FATIA * 210))
        {
            transformar(GgmlType::Q6_K, s, d);
        }
        assert_eq!(fatias, dst);
    }
}

#[test]
fn o_pad_e_zerado_mesmo_com_destino_sujo() {
    let src = bytes_pseudo(3 * 34);
    let mut dst = vec![0xFFu8; 3 * 36];
    repack_q8_0_into(&src, &mut dst);
    for i in 0..3 {
        assert_eq!(&dst[i * 36 + 2..i * 36 + 4], &[0, 0], "pad do bloco {i}");
    }
    let src = bytes_pseudo(2 * 210);
    let mut dst = vec![0xFFu8; 2 * 212];
    pad_q6_k_into(&src, &mut dst);
    for i in 0..2 {
        assert_eq!(&dst[i * 212 + 210..(i + 1) * 212], &[0, 0], "pad do sb {i}");
    }
}

#[test]
fn o_que_segue_os_blocos_fica_como_estava() {
    let src = bytes_pseudo(2 * 34 + 5);
    let mut dst = vec![0xEEu8; 2 * 36 + 7];
    repack_q8_0_into(&src, &mut dst);
    assert_eq!(&dst[72..], &[0xEE; 7]);
    assert_eq!(&dst[..72], &repack_serial(&src[..68])[..]);
}

#[test]
fn layouts_dos_tipos_com_kernel() {
    assert_eq!(layout_de(GgmlType::Q8_0), Some((34, 36)));
    assert_eq!(layout_de(GgmlType::Q6_K), Some((210, 212)));
    assert_eq!(layout_de(GgmlType::Q5_K), Some((176, 176)));
    assert_eq!(layout_de(GgmlType::Q4_K), Some((144, 144)));
    assert_eq!(layout_de(GgmlType::F32), None);
    assert_eq!(layout_de(GgmlType::F16), None);
}

#[test]
fn upload_tensor_q8_0_para_vram() {
    let n_out = 64usize;
    let n_in = 128usize;
    let n_blocks = n_in / 32;
    let row_bytes = n_blocks * 34;
    let bytes: Vec<u8> = (0..n_out * row_bytes).map(|i| (i % 256) as u8).collect();
    let gpu = repack_q8_0(&bytes, n_in, n_out);
    assert_eq!(gpu.len(), n_out * n_blocks * 36);
    assert_eq!(gpu, repack_serial(&bytes));
}

/// A device that takes the copies of a batch only when the batch is awaited.
struct Simulado {
    staging: [Vec<u8>; 2],
    pendentes: [Vec<(usize, usize, usize, usize)>; 2],
    voando: [bool; 2],
    destinos: Vec<Vec<u8>>,
}

impl Simulado {
    fn novo(staging: usize) -> Self {
        Simulado {
            staging: [vec![0; staging], vec![0; staging]],
            pendentes: [Vec::new(), Vec::new()],
            voando: [false; 2],
            destinos: Vec::new(),
        }
    }

    fn faz(&mut self, acoes: &[Acao], ty: GgmlType, src: &[u8], destino: usize) {
        for a in acoes {
            match *a {
                Acao::Submete { lote } => self.voando[lote] = true,
                Acao::Espera { lote } => {
                    assert!(self.voando[lote]);
                    self.voando[lote] = false;
                    for (d, s, o, n) in std::mem::take(&mut self.pendentes[lote]) {
                        let x = self.staging[lote][s..s + n].to_vec();
                        self.destinos[d][o..o + n].copy_from_slice(&x);
                    }
                }
                Acao::Abre { lote } => {
                    assert!(!self.voando[lote] && self.pendentes[lote].is_empty())
                }
                Acao::Copia { lote, de, ate, src_off, dst_off, n } => {
                    assert!(!self.voando[lote]);
                    let (s, o, n) = (src_off as usize, dst_off as usize, n as usize);
                    transformar(ty, &src[de..ate], &mut self.staging[lote][s..s + n]);
                    self.pendentes[lote].push((destino, s, o, n));
                }
            }
        }
    }
}

#[test]
fn uploader_em_lotes_entrega_os_mesmos_bytes() {
    const STAGING: u64 = 64 * 1024;
    let (mut upl, abre) = Uploader::com_staging(STAGING);
    let mut gpu = Simulado::novo(STAGING as usize);
    gpu.faz(&[abre], GgmlType::F32, &[], 0);
    let casos: [(GgmlType, usize, usize); 5] = [
        (GgmlType::Q8_0, 2, 300),
        (GgmlType::Q6_K, 1, 100),
        (GgmlType::Q8_0, 4, 900),
        (GgmlType::Q5_K, 1, 120),
        (GgmlType::Q8_0, 1, 7),
    ];
    let mut esperados = Vec::new();
    let mut viradas = 0;
    for (i, (ty, blocos, linhas)) in casos.into_iter().enumerate() {
        let (src_bl, dst_bl) = layout_de(ty).unwrap();
        let src = bytes_pseudo(blocos * linhas * src_bl);
        let mut esperado = vec![0u8; blocos * linhas * dst_bl];
        transformar(ty, &src, &mut esperado);
        let p = peca_de(ty, src.len()).unwrap();
        assert_eq!(p.n_blocos * p.dst_bl, esperado.len());
        gpu.destinos.push(vec![0u8; esperado.len()]);
        let acoes = upl.sobe(&p);
        viradas += acoes.iter().filter(|a| matches!(a, Acao::Submete { .. })).count();
        gpu.faz(&acoes, ty, &src, i);
        esperados.push(esperado);
    }
    assert_eq!(viradas, 2, "o lote vira duas vezes");
    // Plain bytes go through the same batches.
    let crus = bytes_pseudo(1000);
    gpu.destinos.push(vec![0u8; crus.len()]);
    let acoes = upl.sobe(&peca_crua(crus.len()));
    gpu.faz(&acoes, GgmlType::F32, &crus, 5);
    esperados.push(crus);
    gpu.faz(&upl.finalizar(), GgmlType::F32, &[], 0);
    for (i, e) in esperados.iter().enumerate() {
        assert_eq!(&gpu.destinos[i], e, "tensor {i}");
    }
}

#[test]
fn peca_recusa_tipo_e_tamanho() {
    let e = TensorError::Vulkan(VkResult::ErrorFormatNotSupported);
    assert_eq!(peca_de(GgmlType::F32, 34), Err(e));
    assert_eq!(peca_de(GgmlType::Q8_0, 0), Err(e));
    assert_eq!(peca_de(GgmlType::Q8_0, 35), Err(e));
    assert_eq!(peca_de(GgmlType::Q8_0, 68).unwrap().n_blocos, 2);
    assert_eq!(STAGING_BYTES, 256 * 1024 * 1024);
}

#[test]
fn tipos_de_memoria() {
    let tipos = [DEVICE_LOCAL, HOST_VISIBLE | HOST_COHERENT, HOST_VISIBLE | HOST_COHERENT | HOST_CACHED];
    assert_eq!(tipo_de_memoria(&tipos, 0b111, flags_para(false)), Ok(0));
    assert_eq!(tipo_de_memoria(&tipos, 0b111, flags_para(true)), Ok(1));
    assert_eq!(tipo_de_memoria(&tipos, 0b111, flags_de_leitura()), Ok(2));
    assert_eq!(tipo_de_memoria(&tipos, 0b100, flags_para(true)), Ok(2));
    assert_eq!(
        tipo_de_memoria(&tipos, 0b001, flags_para(true)),
        Err(VkResult::ErrorOutOfDeviceMemory)
    );
}

#[test]
fn pedidos_que_o_chunk_satisfaz() {
    let e = Err(TensorError::Vulkan(VkResult::ErrorOutOfDeviceMemory));
    assert_eq!(confere_pedido(256, 0b10, 1), Ok(()));
    assert_eq!(confere_pedido(64, 0b10, 1), Ok(()));
    assert_eq!(confere_pedido(512, 0b10, 1), e);
    assert_eq!(confere_pedido(96, 0b10, 1), e);
    assert_eq!(confere_pedido(256, 0b01, 1), e);
}

#[test]
fn resident_gpu_nao_re_uploada_peso() {
    let mut pesos = Pesos::novo();
    let w = vec![0u8; 34];
    let chave = w.as_ptr() as u64;
    for _ in 0..2 {
        if pesos.tem(chave).is_none() {
            pesos.subiu(chave, 11);
        }
        assert_eq!(pesos.resident_count(), 1);
    }
    assert_eq!(pesos.tem(chave), Some(11));
    assert_eq!(pesos.tem(chave + 1), None);
}

#[test]
fn resident_gpu_buffers_estabilizam_apos_warmup() {
    let mut b = Buffers::empty();
    let c = chamada(32, 32, 1);
    assert!(b.falta_x(c.x_size) && b.falta_y(c.y_size));
    b.garantiu_x(c.x_size);
    b.garantiu_y(c.y_size);
    assert_eq!(b.grows, 2, "1ª chamada aloca X e Y");
    assert!(!b.falta_x(c.x_size) && !b.falta_y(c.y_size));
    b.garantiu_x(c.x_size);
    b.garantiu_y(c.y_size);
    assert_eq!(b.grows, 2, "mesmo tamanho => sem realloc");
    let c2 = chamada(32, 32, 2);
    b.garantiu_x(c2.x_size);
    b.garantiu_y(c2.y_size);
    assert_eq!(b.grows, 3, "n_out maior => 1 grow só no lado Y");
    assert_eq!(b, Buffers { x_cap: 128, y_cap: 8, grows: 3 });
    assert_eq!(c2.grupos, 2);
    assert_eq!(c2.push, vec![32, 0, 0, 0, 2, 0, 0, 0, 0, 0, 0, 0]);
}

#[test]
fn growth_that_fails_leaves_no_capacity() {
    let mut b = Buffers::empty();
    b.garantiu_x(100);
    b.garantiu_y(4);
    assert!(b.falta_x(200));
    b.largou_x();
    // The larger buffers did not come: a smaller request needs new ones, too.
    assert!(b.falta_x(50) && !b.falta_y(4));
    assert_eq!(b, Buffers { x_cap: 0, y_cap: 4, grows: 2 });
    b.garantiu_x(50);
    assert!(!b.falta_x(50));
    b.largou_y();
    assert_eq!(b, Buffers { x_cap: 50, y_cap: 0, grows: 3 });
}

#[test]
fn gpu_weights_upload_synthetic() {
    let w = upload_synthetic(24, 896);
    assert_eq!(w.n_layers_loaded, 24);
    assert!(w.vram_bytes > 0, "deve ter alocado VRAM");
    assert_eq!(w.matrizes[1], (112, 896));
    assert_eq!(w.matrizes[6], (896, 3584));
    assert_eq!(w.bytes[0], 896 * 28 * 34);
    let por_camada = 36 * (896 * 28 * 2 + 112 * 28 * 2 + 3584 * 28 * 2 + 896 * 112);
    assert_eq!(w.vram_bytes, 24 * por_camada);
    assert!(sintetico_cabe(24, 896) && sintetico_cabe(0, 32) && sintetico_cabe(1 << 11, 1 << 24));
    assert!(!sintetico_cabe(1, usize::MAX) && !sintetico_cabe(1, 1 << 40));
    assert!(sintetico_cabe(0, 1 << 40));
    assert_eq!(upload_synthetic(0, 1 << 40).vram_bytes, 0);
    assert!(!sintetico_cabe(usize::MAX, 32) && sintetico_cabe(usize::MAX, 0));
}

fn denso() -> LlamaConfig {
    LlamaConfig {
        n_embd: 64,
        n_layer: 2,
        n_head: 4,
        n_head_kv: 2,
        head_dim: 16,
        n_ff: 128,
        rope_dim: 16,
        vocab: 100,
        ctx: 32,
        rms_eps: 0x3586_37bd,
        delta_net: None,
    }
}

fn hibrido() -> LlamaConfig {
    LlamaConfig {
        delta_net: Some(DeltaNetConfig {
            d_state: 8,
            n_k_heads: 2,
            n_v_heads: 4,
            d_conv: 4,
            head_v_dim: 8,
        }),
        ..denso()
    }
}

#[test]
fn cabeca_larga_demais_e_recusada() {
    let c = cfg_do_shard(&denso(), Shard::whole(0, 2), 8).unwrap();
    assert_eq!(c.kv_dim, 32);
    assert_eq!(c.n_layer, 2);
    let larga = LlamaConfig { head_dim: 257, ..denso() };
    assert!(cfg_do_shard(&larga, Shard::whole(0, 2), 8).is_err());
}

#[test]
fn tamanhos_dos_buffers() {
    let c = cfg_do_shard(&hibrido(), Shard::whole(0, 2), 2).unwrap();
    let t = tamanhos(&c, 1, false);
    assert_eq!(t.embd, 64 * 2 * 4);
    assert_eq!(t.q, 16 * 4 * 2 * 2 * 4);
    assert_eq!(t.attn, 16 * 4 * 2 * 4);
    assert_eq!(t.kv, 32 * 32 * 4);
    assert_eq!(t.attn_split, 4 * 16 * 18 * 2 * 4);
    assert_eq!(t.xq, 128 / 32 * 8 * 2 * 4);
    assert_eq!(t.logits, 100 * 4);
    assert_eq!(t.saida, 100 * 4);
    let d = t.dn.unwrap();
    assert_eq!(d.conv, (8 * 2 * 2 + 8 * 4) * 2 * 4);
    assert_eq!(d.estado, 4 * 8 * 8 * 4);
    assert_eq!(d.janela, 64 * 3 * 4);
    // The verification needs room for three tokens, and three columns of logits.
    let m = tamanhos(&c, 1, true);
    assert_eq!(m.embd, 64 * 3 * 4);
    assert_eq!(m.logits, 300 * 4);
    assert_eq!((copias_por_camada(true), copias_por_camada(false)), (2, 0));
    // A shard that is not the last one hands over its residual stream.
    let s = Shard { device: 0, first_layer: 0, end_layer: 1, n_layer_total: 2 };
    let c = cfg_do_shard(&denso(), s, 8).unwrap();
    assert_eq!(tamanhos(&c, 1, false).saida, 64 * 8 * 4);
}

#[test]
fn formas_dos_pesos() {
    let c = cfg_do_shard(&denso(), Shard::whole(0, 2), 8).unwrap();
    let f = formas_camada(&c, false).unwrap();
    assert_eq!(f.len(), 7);
    assert_eq!(f[0], Forma { peso: Peso::AttnQ, n_in: 64, n_out: 64 });
    assert_eq!(f[6], Forma { peso: Peso::FfnDown, n_in: 128, n_out: 64 });
    assert!(formas_camada(&c, true).is_err(), "sem dimensoes da atencao linear");
    let h = cfg_do_shard(&hibrido(), Shard::whole(0, 2), 8).unwrap();
    let f = formas_camada(&h, true).unwrap();
    assert_eq!(f[0], Forma { peso: Peso::AttnQkv, n_in: 64, n_out: 64 });
    assert_eq!(f[2], Forma { peso: Peso::SsmOut, n_in: 32, n_out: 64 });
    assert!(formas_da_cabeca(&h, true, false, false).unwrap().is_none());
    assert!(formas_da_cabeca(&h, false, true, true).unwrap().is_none());
    assert!(formas_da_cabeca(&h, true, true, true).is_err());
    let m = formas_da_cabeca(&h, true, true, false).unwrap().unwrap();
    assert_eq!(m[0], Forma { peso: Peso::EhProj, n_in: 128, n_out: 64 });
    assert_eq!(m[1], Forma { peso: Peso::AttnQ, n_in: 64, n_out: 128 });
    assert_eq!(m.len(), 8);
}

#[test]
fn limite_dos_pesos_na_vram() {
    assert_eq!(vram_pesos(&[34, 34], 34), 3 * 36);
    assert_eq!(vram_pesos(&[33], 0), 36);
    assert_eq!(vram_pesos(&[], 0), 0);
}

#[test]
fn coeficientes_lado_a_lado() {
    assert_eq!(intercala(&[1, 2, 3], &[7, 8, 9], 2), vec![1, 7, 2, 8]);
}
