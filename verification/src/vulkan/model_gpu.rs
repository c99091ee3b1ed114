//! Weights of zeros, to try out an upload.

use vstd::prelude::*;

verus! {

/// The matrices of a layer, as rows and columns: four of the attention and three
/// of the feed-forward block.
pub open spec fn matrizes(n_embd: int) -> Seq<(int, int)> {
    seq![
        (n_embd, n_embd),
        (n_embd / 8, n_embd),
        (n_embd / 8, n_embd),
        (n_embd, n_embd),
        (n_embd * 4, n_embd),
        (n_embd * 4, n_embd),
        (n_embd, n_embd * 4),
    ]
}

/// Bytes of a Q8_0 matrix in the file and in device memory.
pub open spec fn bytes_no_arquivo(m: (int, int)) -> int {
    m.0 * (m.1 / 32 * 34)
}

pub open spec fn bytes_na_vram(m: (int, int)) -> int {
    m.0 * (m.1 / 32) * 36
}

/// Device memory of the first `n` matrices.
pub open spec fn vram(m: Seq<(int, int)>, n: int) -> int
    decreases n,
{
    if n <= 0 {
        0
    } else {
        vram(m, n - 1) + bytes_na_vram(m[n - 1])
    }
}

/// What to upload for weights of zeros: the matrices of a layer with the bytes
/// of each in the file, if there is a layer, and the device memory of all layers.
pub struct Sintetico {
    pub matrizes: Vec<(usize, usize)>,
    pub bytes: Vec<usize>,
    pub n_layers_loaded: usize,
    pub vram_bytes: u64,
}

/// Rows and columns, as machine numbers.
pub open spec fn como_int(v: Seq<(usize, usize)>) -> Seq<(int, int)> {
    v.map_values(|x: (usize, usize)| (x.0 as int, x.1 as int))
}

/// That the numbers of [`upload_synthetic`] fit.
pub open spec fn tem_tamanho(n_layers: int, n_embd: int) -> bool {
    let ms = matrizes(n_embd);
    &&& n_embd * 4 <= usize::MAX
    &&& n_layers > 0 ==> {
        &&& n_embd * 4 / 32 * 34 <= usize::MAX
        &&& forall|i: int|
            0 <= i < 7 ==> bytes_no_arquivo(#[trigger] ms[i]) <= usize::MAX && bytes_na_vram(ms[i])
                <= usize::MAX
        &&& vram(ms, 7) <= u64::MAX
        &&& n_layers * vram(ms, 7) <= u64::MAX
    }
}

fn matrizes_de(n_embd: usize) -> (r: Vec<(usize, usize)>)
    requires
        n_embd * 4 <= usize::MAX,
    ensures
        como_int(r@) == matrizes(n_embd as int),
{
    let f: usize = n_embd * 4;
    let k: usize = n_embd / 8;
    let m: Vec<(usize, usize)> = vec![
        (n_embd, n_embd),
        (k, n_embd),
        (k, n_embd),
        (n_embd, n_embd),
        (f, n_embd),
        (f, n_embd),
        (n_embd, f),
    ];
    assert(como_int(m@) =~= matrizes(n_embd as int));
    m
}

/// Whether there is a size for that many layers of that width.
pub fn sintetico_cabe(n_layers: usize, n_embd: usize) -> (r: bool)
    ensures
        r == tem_tamanho(n_layers as int, n_embd as int),
{
    if n_embd > usize::MAX / 4 {
        return false;
    }
    if n_layers == 0 {
        return true;
    }
    if n_embd * 4 / 32 > usize::MAX / 34 {
        return false;
    }
    let ghost ms = matrizes(n_embd as int);
    let m = matrizes_de(n_embd);
    let mut por_camada: u64 = 0;
    let mut i: usize = 0;
    while i < 7
        invariant
            i <= 7,
            n_layers > 0,
            como_int(m@) == ms,
            ms == matrizes(n_embd as int),
            n_embd * 4 <= usize::MAX,
            n_embd as int * 4 / 32 * 34 <= usize::MAX,
            forall|j: int|
                0 <= j < i ==> bytes_no_arquivo(#[trigger] ms[j]) <= usize::MAX && bytes_na_vram(
                    ms[j],
                ) <= usize::MAX,
            por_camada == vram(ms, i as int),
        decreases 7 - i,
    {
        assert(m@.len() == como_int(m@).len());
        let (a, b) = m[i];
        proof {
            assert(como_int(m@)[i as int] == (a as int, b as int));
            assert(ms[i as int] == (a as int, b as int));
            assert(b <= n_embd * 4);
            assert(b as int / 32 * 34 <= n_embd as int * 4 / 32 * 34);
            assert(a * (b as int / 32) >= 0 && a * (b as int / 32) <= a * (b as int / 32 * 34))
                by (nonlinear_arith)
                requires
                    b as int / 32 >= 0,
            ;
            lemma_vram(ms, i + 1, 7);
        }
        if a.checked_mul(b / 32 * 34).is_none() {
            return false;
        }
        let x: u64 = match (a * (b / 32)).checked_mul(36) {
            Some(x) => x as u64,
            None => {
                return false;
            },
        };
        por_camada = match por_camada.checked_add(x) {
            Some(n) => n,
            None => {
                return false;
            },
        };
        i += 1;
    }
    (n_layers as u64).checked_mul(por_camada).is_some()
}

pub fn upload_synthetic(n_layers: usize, n_embd: usize) -> (r: Sintetico)
    requires
        tem_tamanho(n_layers as int, n_embd as int),
    ensures
        como_int(r.matrizes@) == matrizes(n_embd as int),
        r.bytes@.len() == (if n_layers > 0 {
            7int
        } else {
            0
        }),
        forall|i: int|
            0 <= i < r.bytes@.len() ==> #[trigger] r.bytes@[i] == bytes_no_arquivo(
                matrizes(n_embd as int)[i],
            ),
        r.n_layers_loaded == n_layers,
        r.vram_bytes == n_layers * vram(matrizes(n_embd as int), 7),
{
    let ghost ms = matrizes(n_embd as int);
    let m = matrizes_de(n_embd);
    assert(m@.len() == como_int(m@).len());
    if n_layers == 0 {
        assert(n_layers * vram(ms, 7) == 0) by (nonlinear_arith)
            requires
                n_layers == 0,
        ;
        return Sintetico { matrizes: m, bytes: Vec::new(), n_layers_loaded: 0, vram_bytes: 0 };
    }
    let mut bytes: Vec<usize> = Vec::new();
    let mut por_camada: u64 = 0;
    let mut i: usize = 0;
    while i < 7
        invariant
            i <= 7,
            m@.len() == 7,
            como_int(m@) == ms,
            ms == matrizes(n_embd as int),
            n_embd * 4 <= usize::MAX,
            n_embd as int * 4 / 32 * 34 <= usize::MAX,
            forall|j: int|
                0 <= j < 7 ==> bytes_no_arquivo(#[trigger] ms[j]) <= usize::MAX && bytes_na_vram(
                    ms[j],
                ) <= usize::MAX,
            vram(ms, 7) <= u64::MAX,
            bytes@.len() == i,
            forall|j: int| 0 <= j < i ==> #[trigger] bytes@[j] == bytes_no_arquivo(ms[j]),
            por_camada == vram(ms, i as int),
        decreases 7 - i,
    {
        let (a, b) = m[i];
        proof {
            assert(como_int(m@)[i as int] == (a as int, b as int));
            assert(ms[i as int] == (a as int, b as int));
            assert(bytes_no_arquivo(ms[i as int]) <= usize::MAX);
            lemma_vram(ms, i + 1, 7);
            assert(a * (b as int / 32 * 34) >= 0) by (nonlinear_arith)
                requires
                    b as int / 32 * 34 >= 0,
            ;
            assert(a * (b as int / 32) >= 0) by (nonlinear_arith)
                requires
                    b as int / 32 >= 0,
            ;
            assert(b <= n_embd * 4);
            assert(b as int / 32 * 34 <= n_embd as int * 4 / 32 * 34);
        }
        bytes.push(a * (b / 32 * 34));
        por_camada = por_camada + (a * (b / 32) * 36) as u64;
        i += 1;
    }
    proof {
        lemma_vram(ms, 0, 7);
        assert(n_layers * por_camada >= 0) by (nonlinear_arith);
    }
    Sintetico {
        matrizes: m,
        bytes,
        n_layers_loaded: n_layers,
        vram_bytes: n_layers as u64 * por_camada,
    }
}

proof fn lemma_vram(m: Seq<(int, int)>, a: int, b: int)
    requires
        0 <= a <= b <= m.len(),
        m.len() == 7,
        exists|n: int| 0 <= n && m == matrizes(n),
    ensures
        0 <= vram(m, a) <= vram(m, b),
    decreases b,
{
    let n = choose|n: int| 0 <= n && m == matrizes(n);
    if b > 0 {
        let x = m[b - 1];
        assert(x.0 >= 0 && x.1 >= 0);
        assert(bytes_na_vram(x) >= 0) by (nonlinear_arith)
            requires
                bytes_na_vram(x) == x.0 * (x.1 / 32) * 36,
                x.0 >= 0,
                x.1 / 32 >= 0,
        ;
        if a < b {
            lemma_vram(m, a, b - 1);
        } else {
            lemma_vram(m, a - 1, b - 1);
        }
    }
}

} // verus!
