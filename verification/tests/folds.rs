use warzone_sentinel::fold::{
    compress_folds, decompress_folds, fold_from_b64, fold_to_b64, folds_in, pack_state,
    unpack_state, BLOCKS, FOLD_DIM, SOURCE_DIM,
};
use warzone_sentinel::learning::{LearningEngine, LobbyEntry};

fn block_weight(block: usize, dim: usize) -> f32 {
    let b = block as f32;
    let d = dim as f32;
    ((b * 0.6180339887 + d * 1.3247179572).sin() * 0.707106781).clamp(-1.0, 1.0)
}

fn fold_vector(source: &[f32; SOURCE_DIM]) -> [f32; FOLD_DIM] {
    let mut out = [0.0f32; FOLD_DIM];
    for block in 0..BLOCKS {
        let base = block * FOLD_DIM;
        for d in 0..FOLD_DIM {
            out[d] += source[base + d] * block_weight(block, d);
        }
    }
    let norm = out.iter().map(|x| x * x).sum::<f32>().sqrt().max(1e-6);
    for v in &mut out {
        *v /= norm;
    }
    out
}

fn fold_telemetry(
    conns: f32,
    wan: Option<f32>,
    mm_delta: Option<f32>,
    role_counts: &[(u8, u16)],
    phase_code: u8,
    cheater_score: f32,
) -> [f32; FOLD_DIM] {
    let mut source = [0.0f32; SOURCE_DIM];
    source[0] = conns / 200.0;
    source[1] = wan.unwrap_or(0.0) / 150.0;
    source[2] = mm_delta.unwrap_or(0.0) / 100.0;
    source[5] = phase_code as f32 / 3.0;
    source[6] = cheater_score;
    for (i, (role, count)) in role_counts.iter().enumerate().take(24) {
        let slot = 32 + i * 2;
        source[slot] = *role as f32 / 16.0;
        source[slot + 1] = (*count as f32).ln_1p() / 5.0;
    }
    source[128] = (conns * 0.1).sin();
    source[129] = (conns * 0.1).cos();
    if let Some(w) = wan {
        source[130] = (w * 0.05).sin();
        source[131] = (w * 0.05).cos();
    }
    fold_vector(&source)
}

fn cosine_similarity(a: &[f32; FOLD_DIM], b: &[f32; FOLD_DIM]) -> f32 {
    a.iter().zip(b.iter()).map(|(x, y)| x * y).sum()
}

fn bits(f: &[f32; FOLD_DIM]) -> [u32; FOLD_DIM] {
    f.map(f32::to_bits)
}

fn floats(f: &[u32; FOLD_DIM]) -> [f32; FOLD_DIM] {
    f.map(f32::from_bits)
}

fn counted() -> [u32; 32] {
    let mut f = [0u32; 32];
    for (i, x) in f.iter_mut().enumerate() {
        *x = 0x0102_0304 + i as u32 * 0x1100_0011;
    }
    f
}

#[test]
fn compress_roundtrip() {
    let f1 = fold_telemetry(50.0, Some(10.0), None, &[], 2, 0.1);
    let f2 = fold_telemetry(120.0, Some(15.0), Some(40.0), &[(2, 8)], 2, 0.6);
    let data = compress_folds(&vec![bits(&f1), bits(&f2)]);
    let back = decompress_folds(&data, 2);
    assert_eq!(back.len(), 2);
    assert!((cosine_similarity(&floats(&back[0]), &f1) - 1.0).abs() < 1e-5);
    assert_eq!(back[0], bits(&f1));
    assert_eq!(back[1], bits(&f2));
}

#[test]
fn a_fold_has_the_dimensions_it_says() {
    assert_eq!(FOLD_DIM, 32);
    assert_eq!(SOURCE_DIM, 8196);
    assert_eq!(BLOCKS, 256);
}

#[test]
fn an_archive_is_smaller_than_what_it_holds() {
    let folds = vec![counted(); 64];
    let data = compress_folds(&folds);
    assert!(!data.is_empty());
    assert!(data.len() < 64 * 128);
    assert_eq!(decompress_folds(&data, 64), folds);
}

#[test]
fn an_archive_that_holds_too_little_gives_nothing() {
    let data = compress_folds(&vec![counted()]);
    assert_eq!(decompress_folds(&data, 1), vec![counted()]);
    assert!(decompress_folds(&data, 2).is_empty());
    assert!(decompress_folds(&vec![1, 2, 3], 1).is_empty());
    assert!(folds_in(&None, 1).is_empty());
    assert!(folds_in(&Some(vec![0; 127]), 1).is_empty());
    assert_eq!(folds_in(&Some(vec![0; 128]), 1), vec![[0u32; 32]]);
}

#[test]
fn a_fold_is_read_back_from_text() {
    let f = counted();
    let text = fold_to_b64(&f);
    assert_eq!(text.len(), 172);
    assert!(text.starts_with("BAMC"));
    assert!(text.ends_with('='));
    assert_eq!(fold_from_b64(&text), Some(f));
    assert_eq!(fold_from_b64(&format!("  {text}\n")), Some(f));
}

#[test]
fn a_text_that_is_no_fold_is_refused() {
    assert_eq!(fold_from_b64("not base64!"), None);
    assert_eq!(fold_from_b64("QUJD"), None);
    let text = fold_to_b64(&counted());
    assert_eq!(fold_from_b64(text.trim_end_matches('=')), None);
}

#[test]
fn state_is_packed_and_unpacked() {
    let bytes: Vec<u8> = b"{\"engine\":\"x\"}".iter().cycle().take(4000).copied().collect();
    let packed = pack_state(&bytes).unwrap();
    assert!(packed.len() < bytes.len());
    assert_eq!(unpack_state(&packed), Some(bytes));
    assert_eq!(unpack_state(&vec![9, 9, 9, 9]), None);
}

#[test]
fn saving_packs_the_folds_of_the_lobbies() {
    let mut e = LearningEngine::new();
    e.save();
    assert_eq!(e.folded_archive_size(), 0);
    for fold in [None, Some(counted())] {
        e.lobbies.push(LobbyEntry {
            ts: 1,
            phase: "in-match".to_string(),
            label: "CLEAN".to_string(),
            confidence: 0,
            conns: 40,
            mm_delta: None,
            fold,
        });
    }
    e.save();
    let blob = e.folded_blob.clone().unwrap();
    assert_eq!(e.folded_archive_size(), blob.len());
    assert_eq!(decompress_folds(&blob, 1), vec![counted()]);
    assert!(decompress_folds(&blob, 2).is_empty());
}
