use gpt2_rs::weights::{check_archive_size, decode_le_words, load_weights, LoadError};

const LAYER_SUFFIXES: [&str; 12] = [
    "ln_1.weight",
    "ln_1.bias",
    "ln_2.weight",
    "ln_2.bias",
    "attn.c_attn.weight",
    "attn.c_attn.bias",
    "attn.c_proj.weight",
    "attn.c_proj.bias",
    "mlp.c_fc.weight",
    "mlp.c_fc.bias",
    "mlp.c_proj.weight",
    "mlp.c_proj.bias",
];

/// A safetensors archive of `F32` tensors, laid out in the given order.
fn archive(tensors: &[(String, Vec<f32>)]) -> Vec<u8> {
    let mut header = String::from("{");
    let mut data: Vec<u8> = Vec::new();
    for (i, (name, values)) in tensors.iter().enumerate() {
        let start = data.len();
        for v in values {
            data.extend_from_slice(&v.to_le_bytes());
        }
        if i > 0 {
            header.push(',');
        }
        header.push_str(&format!(
            "\"{}\":{{\"dtype\":\"F32\",\"shape\":[{}],\"data_offsets\":[{},{}]}}",
            name,
            values.len(),
            start,
            data.len()
        ));
    }
    header.push('}');
    let mut out = (header.len() as u64).to_le_bytes().to_vec();
    out.extend_from_slice(header.as_bytes());
    out.extend_from_slice(&data);
    out
}

fn model_tensors(n_layer: usize) -> Vec<(String, Vec<f32>)> {
    let mut tensors = Vec::new();
    let mut value = 0.0f32;
    for i in 0..n_layer {
        for suffix in LAYER_SUFFIXES.iter() {
            value += 1.0;
            tensors.push((format!("h.{}.{}", i, suffix), vec![value, -value]));
        }
    }
    for name in ["ln_f.weight", "ln_f.bias", "wte.weight", "wpe.weight"] {
        value += 1.0;
        tensors.push((name.to_string(), vec![value, value / 2.0, 0.0]));
    }
    tensors
}

fn as_f32(words: &[u32]) -> Vec<f32> {
    words.iter().map(|w| f32::from_bits(*w)).collect()
}

#[test]
fn little_endian_words() {
    assert_eq!(decode_le_words(&[0x00, 0x00, 0x80, 0x3f]), vec![0x3f80_0000]);
    assert_eq!(decode_le_words(&[1, 2, 3, 4, 0xff, 0xff, 0xff, 0xff]), vec![0x0403_0201, u32::MAX]);
    assert_eq!(decode_le_words(&[]), Vec::<u32>::new());
}

#[test]
fn trailing_bytes_are_not_read() {
    assert_eq!(decode_le_words(&[1, 0, 0, 0, 9, 9, 9]), vec![1]);
    assert_eq!(decode_le_words(&[5, 6, 7]), Vec::<u32>::new());
}

#[test]
fn f32_values_survive_the_decoding() {
    let values = [1.5f32, -0.25, 3.0e7, f32::MIN_POSITIVE];
    let mut bytes = Vec::new();
    for v in values.iter() {
        bytes.extend_from_slice(&v.to_le_bytes());
    }
    assert_eq!(as_f32(&decode_le_words(&bytes)), values.to_vec());
}

#[test]
fn loads_every_tensor_into_its_field() {
    let tensors = model_tensors(2);
    let file = archive(&tensors);
    let w = load_weights(&file, 2).expect("weights load");
    assert_eq!(w.layers.len(), 2);
    let l1 = &w.layers[1];
    assert_eq!(as_f32(&l1.ln_1.weight), vec![13.0, -13.0]);
    assert_eq!(as_f32(&l1.ln_1.bias), vec![14.0, -14.0]);
    assert_eq!(as_f32(&l1.ln_2.weight), vec![15.0, -15.0]);
    assert_eq!(as_f32(&l1.ln_2.bias), vec![16.0, -16.0]);
    assert_eq!(as_f32(&l1.attn.c_attn), vec![17.0, -17.0]);
    assert_eq!(as_f32(&l1.attn.c_attn_bias), vec![18.0, -18.0]);
    assert_eq!(as_f32(&l1.attn.c_proj), vec![19.0, -19.0]);
    assert_eq!(as_f32(&l1.attn.c_proj_bias), vec![20.0, -20.0]);
    assert_eq!(as_f32(&l1.mlp.c_fc), vec![21.0, -21.0]);
    assert_eq!(as_f32(&l1.mlp.c_fc_bias), vec![22.0, -22.0]);
    assert_eq!(as_f32(&l1.mlp.c_proj), vec![23.0, -23.0]);
    assert_eq!(as_f32(&l1.mlp.c_proj_bias), vec![24.0, -24.0]);
    assert_eq!(as_f32(&w.layers[0].ln_1.weight), vec![1.0, -1.0]);
    assert_eq!(as_f32(&w.ln_f.weight), vec![25.0, 12.5, 0.0]);
    assert_eq!(as_f32(&w.ln_f.bias), vec![26.0, 13.0, 0.0]);
    assert_eq!(as_f32(&w.wte), vec![27.0, 13.5, 0.0]);
    assert_eq!(as_f32(&w.wpe), vec![28.0, 14.0, 0.0]);
}

#[test]
fn archive_order_does_not_matter() {
    let mut tensors = model_tensors(1);
    tensors.reverse();
    let file = archive(&tensors);
    let w = load_weights(&file, 1).expect("weights load");
    assert_eq!(as_f32(&w.layers[0].mlp.c_fc), vec![9.0, -9.0]);
    assert_eq!(as_f32(&w.wpe), vec![16.0, 8.0, 0.0]);
}

#[test]
fn no_layers_reads_only_the_model_wide_tensors() {
    let file = archive(&model_tensors(0));
    let w = load_weights(&file, 0).expect("weights load");
    assert_eq!(w.layers.len(), 0);
    assert_eq!(as_f32(&w.wte), vec![3.0, 1.5, 0.0]);
}

#[test]
fn reports_the_first_missing_tensor() {
    let tensors: Vec<_> = model_tensors(2)
        .into_iter()
        .filter(|(name, _)| name != "h.1.ln_2.bias" && name != "h.1.mlp.c_fc.weight" && name != "wte.weight")
        .collect();
    let file = archive(&tensors);
    match load_weights(&file, 2) {
        Err(LoadError::MissingTensor(name)) => assert_eq!(name, "h.1.ln_2.bias"),
        other => panic!("unexpected result {:?}", other.err()),
    }
}

#[test]
fn reports_a_missing_model_wide_tensor() {
    let tensors: Vec<_> = model_tensors(1).into_iter().filter(|(name, _)| name != "wte.weight").collect();
    let file = archive(&tensors);
    match load_weights(&file, 1) {
        Err(LoadError::MissingTensor(name)) => assert_eq!(name, "wte.weight"),
        other => panic!("unexpected result {:?}", other.err()),
    }
}

#[test]
fn more_layers_than_the_archive_holds() {
    let file = archive(&model_tensors(1));
    match load_weights(&file, 3) {
        Err(LoadError::MissingTensor(name)) => assert_eq!(name, "h.1.ln_1.weight"),
        other => panic!("unexpected result {:?}", other.err()),
    }
}

#[test]
fn rejects_bytes_that_are_no_archive() {
    assert!(matches!(load_weights(b"not a safetensors file", 0), Err(LoadError::InvalidArchive)));
    assert!(matches!(load_weights(&[], 0), Err(LoadError::InvalidArchive)));
    let mut file = archive(&model_tensors(0));
    file.push(0);
    assert!(matches!(load_weights(&file, 0), Err(LoadError::InvalidArchive)));
}

/// A file made of a length-prefixed header and the given data bytes.
fn raw_archive(header: &str, data: &[u8]) -> Vec<u8> {
    let mut out = (header.len() as u64).to_le_bytes().to_vec();
    out.extend_from_slice(header.as_bytes());
    out.extend_from_slice(data);
    out
}

/// A header of eight `U8` tensors whose offsets run up to `8 * size`.
fn huge_header(size: u64) -> String {
    let mut header = String::from("{");
    for i in 0..8u64 {
        if i > 0 {
            header.push(',');
        }
        header.push_str(&format!(
            "\"t{}\":{{\"dtype\":\"U8\",\"shape\":[{}],\"data_offsets\":[{},{}]}}",
            i,
            size,
            i * size,
            (i + 1) * size
        ));
    }
    header.push('}');
    header
}

#[test]
fn archive_sizes_are_checked() {
    assert!(check_archive_size(&archive(&model_tensors(1))));
    assert!(check_archive_size(&[]));
    assert!(check_archive_size(&[1, 0, 0]));
    assert!(check_archive_size(b"not a safetensors file"));
    assert!(check_archive_size(&raw_archive("{not json", &[])));
    // The data would end 8 bytes before the end of the address space.
    assert!(!check_archive_size(&raw_archive(&huge_header(2305843009213693951), &[])));
    // Large, but the sum still fits.
    assert!(check_archive_size(&raw_archive(&huge_header(1 << 40), &[])));
}

#[test]
fn refuses_an_archive_whose_size_overflows() {
    let file = raw_archive(&huge_header(2305843009213693951), &[]);
    assert!(matches!(load_weights(&file, 0), Err(LoadError::InvalidArchive)));
}

#[test]
fn declared_data_beyond_the_file_is_refused() {
    let file = raw_archive(&huge_header(1 << 40), &[]);
    assert!(matches!(load_weights(&file, 0), Err(LoadError::InvalidArchive)));
}

#[test]
fn long_numbers_in_names_are_fine() {
    let mut tensors = model_tensors(0);
    tensors.push(("x123456789012345678901234567890".to_string(), vec![1.0]));
    let file = archive(&tensors);
    let w = load_weights(&file, 0).expect("weights load");
    assert_eq!(as_f32(&w.wpe), vec![4.0, 2.0, 0.0]);
}
