//! Devices, the split of a model over them, and their clocks.

use llama_rs::vulkan::ambiente::gemm_largura_ok;
use llama_rs::vulkan::device::{
    device_sem_monitor, fila_de_compute, margem_vram_de, margens_vram, orcamento_vram, pci_de,
    pick_device, tem_monitor, Card, Conector, Heap, VulkanPhysicalDevice,
};
use llama_rs::vulkan::erro::{DualGpuError, MatmulError, VkResult};
use llama_rs::vulkan::layer_split::{fronteiras, layout, shards, split_points, todos, trilha};
use llama_rs::vulkan::matmul::{
    dispatch_inner, dispatch_k_matvec, divide_linhas, dois_devices, junta_metades,
};
use llama_rs::vulkan::ops::GgmlType;
use llama_rs::vulkan::pstate::{
    degrau_abaixo, graus, modo_do_ambiente, render_node, sensor_junction, Estado, PSTATE_NONE,
    PSTATE_PEAK, PSTATE_STANDARD,
};
use llama_rs::vulkan::shard::{
    forcar_splits, slots_kv, splits_do_ambiente, splits_do_kv, Shard, SplitsForcados,
};

/// The directory of a device with one card, as `(connector, status)`.
fn sysfs(conectores: &[(&str, &str)]) -> Vec<Card> {
    let mut entradas = vec![Conector { nome: "power".to_owned(), status: None }];
    for (con, status) in conectores {
        entradas.push(Conector {
            nome: format!("card2-{con}"),
            status: Some(format!("{status}\n")),
        });
    }
    vec![Card { nome: "card2".to_owned(), entradas }]
}

#[test]
fn conector_ligado_e_monitor() {
    let raiz = sysfs(&[("DP-7", "disconnected"), ("DP-8", "connected")]);
    assert_eq!(tem_monitor(Some(&raiz)), Some(true));
}

#[test]
fn card_sem_conector_ligado_nao_e_monitor() {
    let raiz = sysfs(&[("DP-7", "disconnected")]);
    assert_eq!(tem_monitor(Some(&raiz)), Some(false));
}

#[test]
fn pci_desconhecido_nao_decide() {
    assert_eq!(tem_monitor(None), None);
    assert_eq!(tem_monitor(Some(&Vec::new())), None);
    let outro = vec![Card { nome: "renderD128".to_owned(), entradas: Vec::new() }];
    assert_eq!(tem_monitor(Some(&outro)), None);
}

#[test]
fn conector_de_outro_card_nao_conta() {
    let mut raiz = sysfs(&[]);
    raiz[0].entradas.push(Conector {
        nome: "card1-DP-1".to_owned(),
        status: Some("connected".to_owned()),
    });
    assert_eq!(tem_monitor(Some(&raiz)), Some(false));
}

#[test]
fn monitor_em_repouso_vale_a_margem_maior_em_todas() {
    let g = 2 << 30;
    let p = 500 << 20;
    assert_eq!(margens_vram(&[Some(true), Some(false)]), vec![g, p]);
    assert_eq!(margens_vram(&[Some(false), Some(false)]), vec![g, g]);
    assert_eq!(margens_vram(&[None, Some(false)]), vec![g, g]);
}

#[test]
fn sem_saber_do_monitor_vale_a_margem_maior() {
    assert_eq!(margem_vram_de(Some(true)), 2 << 30);
    assert_eq!(margem_vram_de(None), 2 << 30);
    assert_eq!(margem_vram_de(Some(false)), 500 << 20);
}

#[test]
fn divide_proporcional_a_vram_livre() {
    assert_eq!(split_points(&[16, 16], 48), vec![(0, 24), (24, 48)]);
    assert_eq!(split_points(&[14, 16], 48), vec![(0, 22), (22, 48)]);
    for free in [[1u64, 7], [3, 5], [9, 1], [1, 1]] {
        let p = split_points(&free, 47);
        assert_eq!(p[0].0, 0);
        assert_eq!(p.last().unwrap().1, 47, "free={free:?}");
        assert_eq!(p[0].1, p[1].0, "faixas contiguas, free={free:?}");
    }
}

#[test]
fn gpu_sem_vram_livre_nao_recebe_camadas() {
    let p = split_points(&[0, 16], 48);
    assert_eq!(p[0], (0, 0), "GPU sem VRAM livre fica sem camadas");
    assert_eq!(p[1], (0, 48));
}

#[test]
fn tres_devices() {
    let p = split_points(&[16, 16, 16], 48);
    assert_eq!(p, vec![(0, 16), (16, 32), (32, 48)]);
}

#[test]
fn fronteira_pela_memoria_ou_pelo_ambiente() {
    let g = 1u64 << 30;
    let livres = [Some(16 * g), Some(16 * g)];
    assert_eq!(fronteiras(&livres, None, 64).unwrap(), vec![(0, 32), (32, 64)]);
    assert_eq!(fronteiras(&livres, Some("30"), 64).unwrap(), vec![(0, 30), (30, 64)]);
    // Not between the first and the last layer, or no number: the memory decides.
    for v in ["0", "64", "99", "x", ""] {
        assert_eq!(fronteiras(&livres, Some(v), 64).unwrap(), vec![(0, 32), (32, 64)]);
    }
    // 1.5 GiB of each are left alone; a device that does not tell has one byte.
    assert_eq!(
        fronteiras(&[Some(3 * g + g / 2), Some(7 * g + g / 2)], None, 64).unwrap(),
        vec![(0, 16), (16, 64)]
    );
    assert_eq!(fronteiras(&[None, Some(16 * g)], None, 64).unwrap(), vec![(0, 0), (0, 64)]);
    // What is set, or refused, asks nothing of the memory.
    let cheias = [Some(u64::MAX), Some(u64::MAX)];
    assert_eq!(
        fronteiras(&cheias, Some("5"), usize::MAX).unwrap(),
        vec![(0, 5), (5, usize::MAX)]
    );
    assert_eq!(
        fronteiras(&[Some(g)], None, 64).unwrap_err(),
        MatmulError::Vulkan(VkResult::ErrorFeatureNotPresent)
    );
}

#[test]
fn shards_so_das_gpus_com_camadas() {
    let s = shards(&vec![(0, 0), (0, 20), (20, 48)], 48);
    assert_eq!(layout(&s), vec![(1, 0, 20), (2, 20, 48)]);
    assert!(s[0].is_first() && !s[0].is_last());
    assert!(s[1].is_last() && !s[1].is_first());
    assert_eq!(trilha(&s[1]), "GPU2 (20..48)");
    for n in 1..50 {
        let s = shards(&split_points(&[3, 0, 9, 4], n), n);
        assert_eq!(s.iter().map(|x| x.n_layers()).sum::<usize>(), n, "n={n}");
    }
    assert!(todos(&[true, true]) && !todos(&[true, false]) && todos(&[]));
}

#[test]
fn shard_do_modelo_inteiro() {
    let s = Shard::whole(3, 28);
    assert!(s.is_first() && s.is_last());
    assert_eq!(s.n_layers(), 28);
}

#[test]
fn slots_kv_so_numera_as_camadas_de_atencao() {
    let padrao = [false, false, false, true, false, false, false, true];
    let (slots, total) = slots_kv(&padrao);
    assert_eq!(total, 2, "8 camadas do qwen35 têm 2 de atenção");
    assert_eq!(slots.get(3), Some(&Some(0)));
    assert_eq!(slots.get(7), Some(&Some(1)));
    assert_eq!(slots.first(), Some(&None), "delta-net não ocupa slot");
}

#[test]
fn slots_kv_no_modelo_denso_e_a_identidade() {
    let (slots, total) = slots_kv(&[true, true, true]);
    assert_eq!(total, 3);
    assert_eq!(slots, vec![Some(0), Some(1), Some(2)]);
}

#[test]
fn largura_do_tile_do_gemm() {
    for cols in [8usize, 16, 24, 32, 64] {
        assert!(gemm_largura_ok(cols), "{cols} é múltiplo de 8 e cabe no tile");
    }
    for cols in [0usize, 1, 4, 12, 72] {
        assert!(!gemm_largura_ok(cols), "{cols} não cabe no tile");
    }
}

#[test]
fn fatias_do_cache() {
    let mut s = SplitsForcados { n: 0 };
    assert_eq!(splits_do_kv(&s, 100), 1);
    assert_eq!(splits_do_kv(&s, 1024), 2);
    assert_eq!(splits_do_kv(&s, 1_000_000), 16);
    forcar_splits(&mut s, 5);
    assert_eq!(splits_do_kv(&s, 100), 5);
    splits_do_ambiente(&mut s, Some(40));
    assert_eq!(splits_do_kv(&s, 100), 16);
    splits_do_ambiente(&mut s, None);
    assert_eq!(s.n, 40);
    forcar_splits(&mut s, 0);
    assert_eq!(splits_do_kv(&s, 100), 1);
}

#[test]
fn escolha_do_device() {
    let livres = [Some(5), None, Some(9), Some(9)];
    assert_eq!(pick_device(&livres, None), 3);
    assert_eq!(pick_device(&livres, Some("1")), 1);
    assert_eq!(pick_device(&livres, Some("4")), 3);
    assert_eq!(pick_device(&[None, None], None), 0);
    assert_eq!(device_sem_monitor(&[2 << 30, 500 << 20]), 1);
    assert_eq!(device_sem_monitor(&[2 << 30]), 0);
}

#[test]
fn devices_que_servem() {
    assert_eq!(fila_de_compute(0x1002, &[1, 4, 6]), Some(2));
    assert_eq!(fila_de_compute(0x10de, &[6]), None);
    assert_eq!(fila_de_compute(0x1002, &[1, 4]), None);
}

#[test]
fn memoria_livre_de_um_device() {
    let h = |device_local, budget, usage| Heap { device_local, budget, usage };
    assert_eq!(orcamento_vram(&[h(true, 100, 30), h(false, 50, 1), h(true, 5, 9)]), (39, 70));
    let p = VulkanPhysicalDevice {
        handle: 1,
        name: "MI50".to_owned(),
        subgroup_size: 64,
        queue_family: 0,
        margem_vram: 500 << 20,
        pci: Some(pci_de(0, 0x85, 0, 0)),
    };
    assert_eq!((p.name(), p.subgroup_size(), p.margem_vram()), ("MI50", 64, 524_288_000));
}

#[test]
fn endereco_pci_em_hexadecimal() {
    assert_eq!(pci_de(0, 0x85, 0, 0), "0000:85:00.0");
    assert_eq!(pci_de(0x1_2345, 0xa, 0x1f, 7), "12345:0a:1f.7");
}

#[test]
fn pstate_pelo_ambiente() {
    assert_eq!(modo_do_ambiente(None), Some(PSTATE_STANDARD));
    assert_eq!(modo_do_ambiente(Some("standard")), Some(PSTATE_STANDARD));
    assert_eq!(modo_do_ambiente(Some("peak")), Some(PSTATE_PEAK));
    assert_eq!(modo_do_ambiente(Some("auto")), None);
    assert_eq!(degrau_abaixo(PSTATE_PEAK), PSTATE_STANDARD);
    assert_eq!(degrau_abaixo(PSTATE_STANDARD), PSTATE_NONE);
}

#[test]
fn pstate_esfria_e_descansa() {
    let m = PSTATE_STANDARD;
    let mut e = Estado::novo(m, 0);
    assert_eq!(e.em_uso(m, false, 100), None);
    // The prefill takes the peak.
    assert_eq!(e.em_uso(m, true, 200), Some(PSTATE_PEAK));
    e.aplicou(PSTATE_PEAK, true);
    // Hot: one step down, and one warning.
    assert_eq!(e.vigiar(m, Some(95), 300), (true, Some(PSTATE_STANDARD)));
    e.aplicou(PSTATE_STANDARD, false);
    assert_eq!(e.aplicado, PSTATE_PEAK);
    e.aplicou(PSTATE_STANDARD, true);
    assert_eq!(e.vigiar(m, Some(99), 400), (false, None));
    // Cool, but not for long enough.
    assert_eq!(e.vigiar(m, Some(80), 500), (false, None));
    assert_eq!(e.quente_ate, Some(10_400));
    // Long enough, but still warm.
    assert_eq!(e.em_uso(m, true, 10_500), None);
    assert_eq!(e.vigiar(m, Some(90), 10_600), (false, None));
    assert_eq!(e.vigiar(m, None, 10_700), (false, None));
    assert_eq!(e.vigiar(m, Some(85), 10_800), (false, Some(PSTATE_PEAK)));
    e.aplicou(PSTATE_PEAK, true);
    // Idle.
    assert_eq!(e.ajustar(m, 12_499), None);
    assert_eq!(e.ajustar(m, 12_500), Some(PSTATE_NONE));
}

#[test]
fn graus_do_sensor() {
    assert_eq!(graus(Some("95999\n")), Some(95));
    assert_eq!(graus(Some(" +5000 ")), Some(5));
    assert_eq!(graus(Some("-1500")), Some(-1));
    assert_eq!(graus(Some("-+1500")), None);
    assert_eq!(graus(Some("")), None);
    assert_eq!(graus(Some("9223372036854775808")), None);
    assert_eq!(graus(Some("-9223372036854775808")), Some(-9_223_372_036_854_775));
    assert_eq!(graus(None), None);
    let t = |s: &str| Some(s.to_owned());
    let r = vec![vec![t("edge\n"), None], vec![None, t("junction\n"), t("mem\n")]];
    assert_eq!(sensor_junction(&r), Some((1, 1)));
    assert_eq!(sensor_junction(&vec![vec![t("edge")]]), None);
    let nomes = vec!["card1".to_owned(), "renderD128".to_owned(), "renderD129".to_owned()];
    assert_eq!(render_node(&nomes), Some(1));
    assert_eq!(render_node(&vec!["card1".to_owned()]), None);
}

#[test]
fn produto_q8_0_de_uma_gpu() {
    let p = dispatch_inner(64, 64, 3, 5);
    assert_eq!(p.tamanhos, vec![5 * 2 * 36, 64, 8, 20, 8]);
    assert_eq!(p.grupos, 5);
    assert_eq!(p.y_len, 5);
    assert_eq!(p.push, vec![64, 0, 0, 0, 5, 0, 0, 0, 3, 0, 0, 0, 0, 0, 0, 0]);
}

#[test]
fn produto_k_quant() {
    let p = dispatch_k_matvec(GgmlType::Q6_K, 210 * 10, 512, 256, 10, 2, (128, 2)).unwrap();
    assert_eq!(p.tamanhos, vec![2120, 512, 64, 80, 64]);
    assert_eq!(p.grupos, 2);
    assert_eq!(p.constantes, vec![(0, 2)]);
    let p = dispatch_k_matvec(GgmlType::Q4_K, 144 * 10, 256, 256, 10, 1, (128, 2)).unwrap();
    assert_eq!(p.grupos, 3);
    assert_eq!(p.constantes, vec![(0, 128), (1, 2), (2, 1)]);
    assert_eq!(p.tamanhos[0], 1440);
    assert_eq!(
        dispatch_k_matvec(GgmlType::Q5_K, 0, 0, 100, 1, 1, (64, 1)).unwrap_err(),
        MatmulError::Vulkan(VkResult::ErrorFeatureNotPresent)
    );
    assert_eq!(
        dispatch_k_matvec(GgmlType::Q5_K, 0, 0, 1 << 40, 1, 1, (64, 1)).unwrap_err(),
        MatmulError::Vulkan(VkResult::ErrorUnknown)
    );
    assert_eq!(
        dispatch_k_matvec(GgmlType::Q5_K, 0, 0, 100, 1, 1 << 40, (64, 1)).unwrap_err(),
        MatmulError::Vulkan(VkResult::ErrorUnknown)
    );
    // The errors come before there is a size.
    let m = usize::MAX;
    assert_eq!(
        dispatch_k_matvec(GgmlType::Q4_K, 0, 0, 256, m, m, (64, 1)).unwrap_err(),
        MatmulError::Vulkan(VkResult::ErrorUnknown)
    );
    assert_eq!(
        dispatch_k_matvec(GgmlType::Q4_K, 0, 0, 255, m, 3, (64, 1)).unwrap_err(),
        MatmulError::Vulkan(VkResult::ErrorFeatureNotPresent)
    );
}

#[test]
fn metade_das_linhas_para_cada_gpu() {
    let m = divide_linhas(64, 7);
    assert_eq!((m.n0, m.n1, m.byte), (3, 4, 3 * 68));
    let e = MatmulError::Vulkan(VkResult::ErrorUnknown);
    assert_eq!(junta_metades(Ok(vec![1, 2]), Ok(vec![3])), Ok(vec![1, 2, 3]));
    assert_eq!(
        junta_metades::<i32>(Err(e), Err(e)),
        Err(DualGpuError::Matmul { gpu: 0, source: e })
    );
    assert_eq!(
        junta_metades::<i32>(Ok(vec![]), Err(e)),
        Err(DualGpuError::Matmul { gpu: 1, source: e })
    );
    assert_eq!(dois_devices(1), Err(DualGpuError::NotEnoughDevices));
    assert_eq!(dois_devices(2), Ok(()));
}
