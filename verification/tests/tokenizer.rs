use llama_rs::tokenizer::bpe::{
    byte_table, decode_bpe, decode_bpe_bytes, pretok_re, tokenize_bpe, tokenize_pieces,
    unicode_to_byte,
};
use llama_rs::tokenizer::fila::{Bigram, Fila};
use llama_rs::tokenizer::gguf::{GgufError, GgufFile, GgufValue};
use llama_rs::tokenizer::pretok::Pretok;
use llama_rs::tokenizer::spm::{tokenize_spm, utf8_len};
use llama_rs::tokenizer::vocab::MENOS_INFINITO;
use llama_rs::tokenizer::{Tokenizer, TokenizerError, Vocab};

fn textos(v: &[&str]) -> Vec<String> {
    v.iter().map(|s| String::from(*s)).collect()
}

fn bits(v: &[f32]) -> Vec<u32> {
    v.iter().map(|f| f.to_bits()).collect()
}

// ── Byte table ──────────────────────────────────────────────────────────────

#[test]
fn byte_table_space_is_gstroke() {
    assert_eq!(byte_table()[32], '\u{0120}');
}

#[test]
fn byte_table_printable_ascii_identity() {
    assert_eq!(byte_table()[33], '!');
    assert_eq!(byte_table()[126], '~');
}

#[test]
fn byte_table_last_of_the_moved_ones() {
    assert_eq!(byte_table()[0], '\u{0100}');
    assert_eq!(byte_table()[127], '\u{0121}');
    assert_eq!(byte_table()[160], '\u{0142}');
    assert_eq!(byte_table()[173], '\u{0143}');
    assert_eq!(byte_table()[255], '\u{00ff}');
}

#[test]
fn unicode_to_byte_roundtrip() {
    let u2b = unicode_to_byte();
    let bt = byte_table();
    for (b, &c) in (0u8..=255).zip(bt.iter()) {
        assert_eq!(u2b[&(c as u32)], b, "roundtrip falhou para byte {b}");
    }
    assert_eq!(u2b.len(), 256);
}

#[test]
fn decode_bpe_reverses_space() {
    assert_eq!(decode_bpe("\u{0120}hello"), " hello");
}

#[test]
fn decode_bpe_keeps_what_is_outside_of_the_table() {
    assert_eq!(decode_bpe_bytes("😀"), "😀".as_bytes());
    assert_eq!(decode_bpe("a\u{0120}😀"), "a 😀");
    assert_eq!(decode_bpe("\u{c3}"), "\u{fffd}");
}

// ── Pieces ──────────────────────────────────────────────────────────────────

fn pedacos(pre: Pretok, texto: &str) -> Vec<&str> {
    pretok_re(pre)
        .unwrap()
        .find_iter(texto)
        .map(|m| m.as_str())
        .collect()
}

#[test]
fn pretokenize_simple_sentence() {
    assert_eq!(
        pedacos(Pretok::Qwen2, "Once upon a time"),
        vec!["Once", " upon", " a", " time"]
    );
}

#[test]
fn qwen35_absorve_a_marca_combinante_na_run_de_letras() {
    let texto = "e\u{301}xito";
    assert_eq!(pedacos(Pretok::Qwen35, texto), vec![texto]);
    assert_eq!(pedacos(Pretok::Qwen2, texto), vec!["e", "\u{301}xito"]);
}

#[test]
fn qwen35_nao_deixa_a_marca_combinante_na_run_de_pontuacao() {
    let texto = "!!\u{301}";
    assert_eq!(pedacos(Pretok::Qwen35, texto), vec!["!!", "\u{301}"]);
    assert_eq!(pedacos(Pretok::Qwen2, texto), vec![texto]);
}

#[test]
fn as_duas_variantes_concordam_sem_marca_combinante() {
    let texto = "Once upon a time, 42 vezes.\n";
    assert_eq!(
        pedacos(Pretok::Qwen35, texto),
        pedacos(Pretok::Qwen2, texto)
    );
}

#[test]
fn from_pre_so_reconhece_qwen35() {
    assert_eq!(Pretok::from_pre("qwen35"), Pretok::Qwen35);
    assert_eq!(Pretok::from_pre("qwen2"), Pretok::Qwen2);
    assert_eq!(Pretok::from_pre(""), Pretok::Qwen2);
    assert_eq!(Pretok::default(), Pretok::Qwen2, "sem a chave, é o de sempre");
}

// ── Tokenizer ───────────────────────────────────────────────────────────────

fn tiny() -> Vocab {
    Vocab::new(
        textos(&["<unk>", "<s>", "</s>", "\u{2581}", "hi"]),
        bits(&[0.0, 0.0, 0.0, -1.0, -0.5]),
        vec![2, 3, 3, 1, 1],
        1,
        2,
        0,
        vec![],
    )
}

#[test]
fn encode_prepends_bos_and_space() {
    let t = Tokenizer::new(tiny());
    assert_eq!(t.encode("hi", true), vec![1, 3, 4]);
}

#[test]
fn encode_without_bos() {
    let t = Tokenizer::new(tiny());
    assert_eq!(t.encode("hi", false), vec![4]);
}

#[test]
fn decode_roundtrip_text() {
    let t = Tokenizer::new(tiny());
    let ids = t.encode("hi", true);
    assert_eq!(t.decode(&ids), "hi");
    assert_eq!(t.decode_bytes(&ids), b"hi");
}

fn bpe_com_especiais() -> Vocab {
    Vocab::new(
        textos(&[
            "<unk>",
            "<|endoftext|>",
            "<|im_start|>",
            "<|im_end|>",
            "h",
            "i",
            "hi",
            "<tool_call>",
        ]),
        bits(&[0.0; 8]),
        vec![2, 3, 3, 3, 1, 1, 1, 4],
        1,
        3,
        0,
        vec![(4, 5)],
    )
}

#[test]
fn encode_special_resolve_o_marcador_como_um_token_so() {
    let t = Tokenizer::new(bpe_com_especiais());
    assert_eq!(t.encode_special("<|im_start|>"), vec![2]);
}

#[test]
fn encode_special_tokeniza_o_texto_entre_os_marcadores() {
    let t = Tokenizer::new(bpe_com_especiais());
    assert_eq!(t.encode_special("<|im_start|>hi<|im_end|>"), vec![2, 6, 3]);
}

#[test]
fn encode_special_cobre_tambem_os_user_defined() {
    let t = Tokenizer::new(bpe_com_especiais());
    assert_eq!(t.encode_special("<tool_call>hi"), vec![7, 6]);
}

#[test]
fn encode_special_without_a_marker_is_encode() {
    let t = Tokenizer::new(bpe_com_especiais());
    assert_eq!(t.encode_special("hihi"), t.encode("hihi", false));
    assert_eq!(t.encode_special(""), Vec::<u32>::new());
}

#[test]
fn encode_takes_a_marker_for_text() {
    let t = Tokenizer::new(bpe_com_especiais());
    assert!(!t.encode("<|im_start|>", false).contains(&2));
}

#[test]
fn the_longest_marker_wins_at_the_leftmost_place() {
    let v = Vocab::new(
        textos(&["<s>", "<|x|>", "<|x|><y>", "a", "<y>", "<|x", "ç"]),
        bits(&[0.0; 7]),
        vec![3, 3, 4, 1, 4, 1, 3],
        0,
        0,
        0,
        vec![],
    );
    let t = Tokenizer::new(v);
    assert_eq!(t.encode_special("a<|x|><y>a"), vec![3, 2, 3]);
    assert_eq!(t.encode_special("<|x|><|x|><y><y>"), vec![1, 2, 4]);
    assert_eq!(t.encode_special("<y><|x|>aç"), vec![4, 1, 3, 6]);
    assert_eq!(t.encode_special("<|x|>"), vec![1]);
    assert_eq!(t.encode_special(""), Vec::<u32>::new());
}

#[test]
fn special_tokens_go_from_the_longest_to_the_shortest() {
    let v = bpe_com_especiais();
    let e: Vec<u32> = v.especiais().into_iter().map(|(_, id)| id).collect();
    assert_eq!(e, vec![1, 2, 7, 3]);
}

#[test]
fn a_longer_marker_wins_over_its_prefix() {
    let v = Vocab::new(
        textos(&["<a", "<a>", "x"]),
        bits(&[0.0; 3]),
        vec![3, 3, 1],
        9,
        9,
        0,
        vec![(2, 2)],
    );
    let t = Tokenizer::new(v);
    assert_eq!(t.encode_special("<a>x<a"), vec![1, 2, 0]);
}

#[test]
fn a_marker_with_pattern_characters_is_literal() {
    let v = Vocab::new(
        textos(&["[a.b]", "a"]),
        bits(&[0.0; 2]),
        vec![4, 1],
        9,
        9,
        0,
        vec![(1, 1)],
    );
    let t = Tokenizer::new(v);
    assert_eq!(t.encode_special("[a.b]"), vec![0]);
    assert_eq!(t.encode_special("a"), vec![1]);
}

#[test]
fn encode_with_given_markers() {
    let t = Tokenizer::new(bpe_com_especiais());
    let texto = "hi<|im_end|>i";
    assert_eq!(
        t.encode_special_com(texto, &vec![(2, 12)]),
        vec![6, 3, 5]
    );
}

#[test]
fn decode_bytes_nao_substitui_o_caractere_partido() {
    let v = Vocab::new(
        textos(&["<unk>", "\u{c3}", "\u{a7}", "a"]),
        bits(&[0.0; 4]),
        vec![2, 1, 1, 1],
        0,
        0,
        0,
        vec![(1, 2)],
    );
    let t = Tokenizer::new(v);
    assert_eq!(t.decode_bytes(&[1]), vec![0xC3]);
    assert_eq!(t.decode_bytes(&[1, 2]), "ç".as_bytes());
    assert_eq!(t.decode(&[1]), "\u{fffd}", "o decode em texto perde o byte");
}

#[test]
fn bpe_merges_the_lowest_rank_first() {
    let v = Vocab::new(
        textos(&["a", "b", "c", "ab", "bc", "abc"]),
        bits(&[0.0; 6]),
        vec![1; 6],
        99,
        99,
        0,
        vec![(1, 2), (0, 1), (0, 4)],
    );
    let ranks = v.merge_ranks();
    assert_eq!(tokenize_pieces(&v, &ranks, "abc", &vec![(0, 3)]), vec![5]);
    assert_eq!(tokenize_pieces(&v, &ranks, "abab", &vec![(0, 4)]), vec![3, 3]);
    assert_eq!(
        tokenize_pieces(&v, &ranks, "abc", &vec![(0, 1), (1, 3)]),
        vec![0, 4]
    );
    let re = pretok_re(Pretok::Qwen2).unwrap();
    assert_eq!(tokenize_bpe(&v, &ranks, &re, "abc"), vec![5]);
    let t = Tokenizer::new(v);
    assert_eq!(t.encode("abc", true), vec![99, 5]);
    assert_eq!(t.tentar_encode("abc", false), Some(vec![5]));
    assert_eq!(t.encode_com("abc", false, &vec![(0, 3)]), vec![5]);
    assert!(t.pronto());
    assert_eq!(t.decode_bytes(&[5, 3]), b"abcab");
}

#[test]
fn bpe_stops_at_a_merge_that_is_no_token() {
    let v = Vocab::new(
        textos(&["a", "b"]),
        bits(&[0.0; 2]),
        vec![1; 2],
        99,
        99,
        0,
        vec![(0, 1)],
    );
    let ranks = v.merge_ranks();
    assert_eq!(tokenize_pieces(&v, &ranks, "ab", &vec![(0, 2)]), vec![0, 1]);
}

#[test]
fn bytes_survive_any_table_of_ranks() {
    let v = Vocab::new(
        textos(&["a", "b", "c", "ab", "bc"]),
        bits(&[0.0; 5]),
        vec![1; 5],
        98,
        99,
        0,
        vec![(0, 1)],
    );
    let par = |a: u64, b: u64| a * 0x1_0000_0000 + b;
    let soletra = |ids: &[u32]| -> Vec<u8> {
        let t: String = ids.iter().map(|i| v.token_text(*i).unwrap()).collect();
        decode_bpe_bytes(&t)
    };
    for (ranks, esperado) in [
        (vec![], vec![0, 1, 2]),
        (vec![(par(1, 2), 5)], vec![0, 4]),
        (vec![(par(1, 2), 5), (par(0, 1), 3)], vec![3, 2]),
        (vec![(par(1, 2), 3), (par(0, 1), 3)], vec![3, 2]),
        (vec![(par(3, 2), 0), (par(0, 1), 9)], vec![3, 2]),
    ] {
        let ids = tokenize_pieces(&v, &ranks.into_iter().collect(), "abc", &vec![(0, 3)]);
        assert_eq!(ids, esperado);
        assert_eq!(soletra(&ids), b"abc");
    }
}

// ── SentencePiece ───────────────────────────────────────────────────────────

fn tiny_spm() -> Vocab {
    Vocab::new(
        textos(&["<unk>", "<s>", "</s>", "<0x64>", "a", "b", "c", "ab", "abc"]),
        bits(&[0.0, 0.0, 0.0, 0.0, -3.0, -3.0, -3.0, -1.0, -0.5]),
        vec![2, 3, 3, 6, 1, 1, 1, 1, 1],
        1,
        2,
        0,
        vec![],
    )
}

#[test]
fn merges_highest_score_first() {
    let v = tiny_spm();
    assert_eq!(tokenize_spm(&v, "abc"), vec![8]);
}

#[test]
fn byte_fallback_for_unknown_char() {
    let v = tiny_spm();
    assert_eq!(tokenize_spm(&v, "d"), vec![3]);
}

#[test]
fn byte_tokens_are_decoded_to_their_bytes() {
    let t = Tokenizer::new(tiny_spm());
    assert_eq!(t.encode("d", false), vec![3]);
    assert_eq!(t.decode(&[3]), "d");
    assert_eq!(t.decode_bytes(&[3]), b"d");
    let ids = t.encode("abcdd", false);
    assert_eq!(ids, vec![8, 3, 3]);
    assert_eq!(t.decode(&ids), "abcdd");
}

/// A vocabulary with all byte tokens: ids 3 to 258, then the escape of the space
/// and one that only looks like a byte.
fn com_bytes() -> Tokenizer {
    let mut tokens = textos(&["<unk>", "<s>", "</s>"]);
    tokens.extend((0..256).map(|b| format!("<0x{b:02X}>")));
    tokens.extend(textos(&["\u{2581}", "<0x7a>"]));
    let mut tipos = vec![2, 3, 3];
    tipos.extend(vec![6; 256]);
    tipos.extend([1, 6]);
    let n = tokens.len();
    Tokenizer::new(Vocab::new(tokens, bits(&vec![0.0; n]), tipos, 1, 2, 0, vec![]))
}

#[test]
fn texts_without_letters_in_the_vocabulary_come_back() {
    let t = com_bytes();
    for texto in ["ação 😀", "a  b", "", "x"] {
        for bos in [false, true] {
            let ids = t.encode(texto, bos);
            assert_eq!(t.decode(&ids), texto);
            assert_eq!(t.decode_bytes(&ids), texto.as_bytes());
        }
    }
    assert_eq!(t.encode("é", false), vec![3 + 0xC3, 3 + 0xA9]);
    assert_eq!(t.decode_bytes(&[3 + 0xC3]), vec![0xC3], "half a character");
    assert_eq!(t.decode(&[3 + 0xC3]), "\u{fffd}");
    let ids = t.encode("é😀", false);
    let mut partes = t.decode_bytes(&ids[..1]);
    partes.extend(t.decode_bytes(&ids[1..]));
    assert_eq!(partes, "é😀".as_bytes(), "a stream in two parts");
    // Without the mark for the beginning a leading space is lost.
    assert_eq!(t.decode(&t.encode(" x", false)), "x");
    assert_eq!(t.decode(&t.encode(" x", true)), " x");
    // A lower-case digit is no byte, and neither is a token of another type.
    assert_eq!(t.decode(&[260]), "<0x7a>");
    let v = Vocab::new(textos(&["<0x64>"]), bits(&[0.0]), vec![1], 9, 9, 0, vec![]);
    assert_eq!(Tokenizer::new(v).decode(&[0]), "<0x64>");
}

#[test]
fn splits_when_no_merge() {
    let v = tiny_spm();
    assert_eq!(tokenize_spm(&v, "ba"), vec![5, 4]);
}

#[test]
fn equal_scores_merge_from_the_left() {
    let v = Vocab::new(
        textos(&["a", "aa"]),
        bits(&[0.0, -1.0]),
        vec![1, 1],
        9,
        9,
        0,
        vec![],
    );
    assert_eq!(tokenize_spm(&v, "aaa"), vec![1, 0]);
    assert_eq!(tokenize_spm(&v, ""), Vec::<u32>::new());
}

#[test]
fn utf8_len_of_first_bytes() {
    assert_eq!(utf8_len(b'a'), 1);
    assert_eq!(utf8_len(0xC3), 2);
    assert_eq!(utf8_len(0xE2), 3);
    assert_eq!(utf8_len(0xF0), 4);
    assert_eq!(utf8_len(0x80), 1);
    assert_eq!(utf8_len(0xFF), 1);
}

#[test]
fn queue_orders_by_score_then_left() {
    let mut f = Fila::new();
    let novo = |left: usize, s: f32| Bigram {
        left,
        right: left + 1,
        score: s.to_bits(),
        size: 2,
    };
    f.push(novo(4, -1.0));
    f.push(novo(2, -1.0));
    f.push(novo(7, 0.5));
    f.push(novo(9, f32::NEG_INFINITY));
    let ordem: Vec<usize> = (0..4).map(|_| f.pop().unwrap().left).collect();
    assert_eq!(ordem, vec![7, 2, 4, 9]);
    assert!(f.pop().is_none());
}

// ── Vocabulary ──────────────────────────────────────────────────────────────

fn tiny_vocab() -> Vocab {
    Vocab::new(
        textos(&["<unk>", "<s>", "</s>", "<0x41>", "ab", "abc"]),
        bits(&[0.0, 0.0, 0.0, 0.0, -1.0, -0.5]),
        vec![2, 3, 3, 6, 1, 1],
        1,
        2,
        0,
        vec![],
    )
}

#[test]
fn text_to_token_lookup() {
    let v = tiny_vocab();
    assert_eq!(v.text_to_token("ab"), Some(4));
    assert_eq!(v.text_to_token("zzz"), None);
}

#[test]
fn byte_to_token_uppercase_hex() {
    let v = tiny_vocab();
    assert_eq!(v.byte_to_token(0x41), Some(3));
}

#[test]
fn score_lookup() {
    let v = tiny_vocab();
    assert_eq!(f32::from_bits(v.score(5)), -0.5);
    assert_eq!(f32::from_bits(v.score(6)), f32::NEG_INFINITY);
    assert_eq!(f32::from_bits(MENOS_INFINITO), f32::NEG_INFINITY);
}

#[test]
fn byte_to_token_falls_back_to_one_character() {
    let v = Vocab::new(
        textos(&["a", "a", "\u{e9}"]),
        bits(&[0.0; 3]),
        vec![1; 3],
        9,
        8,
        7,
        vec![],
    );
    assert_eq!(v.byte_to_token(b'a'), Some(0));
    assert_eq!(v.byte_to_token(0xe9), None);
    assert_eq!(v.token_text(2), Some("\u{e9}"));
    assert_eq!(v.token_text(3), None);
    assert_eq!((v.bos_id(), v.eos_id(), v.unk_id()), (9, 8, 7));
    assert_eq!(v.pre(), Pretok::Qwen2);
    assert!(!v.tem_merges());
}

fn arquivo(modelo: &str) -> GgufFile {
    let chave = |s: &str| format!("tokenizer.ggml.{s}");
    GgufFile {
        entradas: vec![
            (chave("model"), GgufValue::Str(String::from(modelo))),
            (chave("pre"), GgufValue::Str(String::from("qwen35"))),
            (chave("tokens"), GgufValue::StrArray(textos(&["h", "i", "hi"]))),
            (chave("scores"), GgufValue::F32Array(bits(&[-1.0, -2.0, -0.5]))),
            (chave("token_type"), GgufValue::I32Array(vec![1, 1, 1])),
            (chave("bos_token_id"), GgufValue::U32(7)),
            (chave("eos_token_id"), GgufValue::U32(8)),
            (chave("unknown_token_id"), GgufValue::U32(9)),
            (
                chave("merges"),
                GgufValue::StrArray(textos(&["h i", "h", "x y"])),
            ),
        ],
    }
}

#[test]
fn vocabulary_of_a_file() {
    let v = Vocab::from_gguf(&arquivo("llama")).unwrap();
    assert!(!v.tem_merges());
    assert_eq!((v.bos_id(), v.eos_id(), v.unk_id()), (7, 8, 9));
    let t = Tokenizer::from_gguf(&arquivo("llama")).unwrap();
    assert_eq!(t.encode("hi", false), vec![2]);

    let v = Vocab::from_gguf(&arquivo("gpt2")).unwrap();
    assert_eq!(v.pre(), Pretok::Qwen35);
    assert_eq!(v.merge_ranks().len(), 1);
    let t = Tokenizer::from_gguf(&arquivo("gpt2")).unwrap();
    assert_eq!(t.encode("hi", true), vec![7, 2]);
}

#[test]
fn bpe_file_without_scores_and_unknown_token() {
    let mut f = arquivo("gpt2");
    f.entradas
        .retain(|e| !e.0.ends_with("scores") && !e.0.ends_with("unknown_token_id"));
    let v = Vocab::from_gguf(&f).unwrap();
    assert_eq!(v.score(2), 0);
    assert_eq!(v.unk_id(), 0);
}

#[test]
fn unsupported_model() {
    match Vocab::from_gguf(&arquivo("bert")) {
        Err(TokenizerError::UnsupportedModel(m)) => assert_eq!(m, "bert"),
        _ => panic!("expected an unsupported model"),
    }
}

#[test]
fn inconsistent_vocab() {
    let mut f = arquivo("llama");
    f.entradas[4].1 = GgufValue::I32Array(vec![1]);
    match Vocab::from_gguf(&f) {
        Err(TokenizerError::InconsistentVocab {
            tokens,
            scores,
            types,
        }) => assert_eq!((tokens, scores, types), (3, 3, 1)),
        _ => panic!("expected an inconsistent vocabulary"),
    }
}

#[test]
fn missing_key_and_wrong_type() {
    let mut f = arquivo("llama");
    f.entradas[5].1 = GgufValue::Outro;
    match Vocab::from_gguf(&f) {
        Err(TokenizerError::Gguf(GgufError::TipoErrado(k))) => assert_eq!(k, "bos"),
        _ => panic!("expected a type error"),
    }
    f.entradas.remove(5);
    match Vocab::from_gguf(&f) {
        Err(TokenizerError::Gguf(GgufError::ChaveAusente(k))) => {
            assert_eq!(k, "tokenizer.ggml.bos_token_id")
        }
        _ => panic!("expected a missing key"),
    }
}

// ── Chat template ───────────────────────────────────────────────────────────

const IM_START: u32 = 248_045;
const IM_END: u32 = 248_046;
const TOOL_CALL: u32 = 248_058;
const THINK: u32 = 248_068;

/// A vocabulary of the size of the Qwen3.8 one: the bytes, unused tokens, and the
/// markers of the chat template under their ids.
fn qwen38() -> Tokenizer {
    let chave = |s: &str| format!("tokenizer.ggml.{s}");
    let mut tokens: Vec<String> = byte_table().iter().map(|c| String::from(*c)).collect();
    tokens.extend((256..=THINK).map(|i| format!("[PAD{i}]")));
    let mut tipos = vec![1; tokens.len()];
    for (id, texto, tipo) in [
        (IM_START, "<|im_start|>", 3),
        (IM_END, "<|im_end|>", 3),
        (TOOL_CALL, "<tool_call>", 4),
        (THINK, "<think>", 4),
    ] {
        tokens[id as usize] = String::from(texto);
        tipos[id as usize] = tipo;
    }
    let f = GgufFile {
        entradas: vec![
            (chave("model"), GgufValue::Str(String::from("gpt2"))),
            (chave("pre"), GgufValue::Str(String::from("qwen35"))),
            (chave("tokens"), GgufValue::StrArray(tokens)),
            (chave("token_type"), GgufValue::I32Array(tipos)),
            (chave("eos_token_id"), GgufValue::U32(IM_END)),
            (chave("bos_token_id"), GgufValue::U32(IM_END)),
            (chave("merges"), GgufValue::StrArray(textos(&["i m", "u s"]))),
        ],
    };
    Tokenizer::from_gguf(&f).unwrap()
}

#[test]
fn encode_special_resolve_os_marcadores_do_chat_template() {
    let tok = qwen38();
    let ids = tok.encode_special("<|im_start|>user\nOi<|im_end|>\n<think>\n<tool_call>");
    assert_eq!(ids.first(), Some(&IM_START), "o texto começa no marcador");
    for esperado in [IM_END, THINK, TOOL_CALL] {
        assert!(ids.contains(&esperado), "faltou o marcador {esperado}");
    }
}

#[test]
fn encode_comum_nao_resolve_o_marcador() {
    let tok = qwen38();
    let ids = tok.encode("<|im_start|>", false);
    assert!(ids.len() > 1, "sem parse de especiais o marcador se fragmenta");
    assert!(!ids.contains(&IM_START));
}

#[test]
fn encode_special_nao_muda_texto_comum() {
    let tok = qwen38();
    let texto = "A raposa marrom pula sobre o cão preguiçoso.";
    assert_eq!(tok.encode_special(texto), tok.encode(texto, false));
}
