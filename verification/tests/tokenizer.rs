use gpt2_rs::tokenizer::{ids_to_tokens, tokens_to_ids};

const WORD_LEVEL: &str = r#"{
  "version": "1.0",
  "truncation": null,
  "padding": null,
  "added_tokens": [],
  "normalizer": null,
  "pre_tokenizer": {"type": "WhitespaceSplit"},
  "post_processor": null,
  "decoder": null,
  "model": {"type": "WordLevel", "vocab": {"rust": 0, "is": 1, "fast": 2, "[UNK]": 3}, "unk_token": "[UNK]"}
}"#;

fn tokenizer() -> tokenizers::Tokenizer {
    tokenizers::Tokenizer::from_bytes(WORD_LEVEL.as_bytes()).expect("tokenizer description parses")
}

#[test]
fn encoded_ids_become_tokens() {
    let encoding = tokenizer().encode("rust is fast", true).unwrap();
    assert_eq!(ids_to_tokens(encoding.get_ids()), vec![0usize, 1, 2]);
}

#[test]
fn tokens_go_back_as_their_low_32_bits() {
    let big = (1usize << 32) + 2;
    let ids = tokens_to_ids(&[big, 1, 0]);
    assert_eq!(ids, vec![2u32, 1, 0]);
    assert_eq!(tokenizer().decode(&ids, true).unwrap(), "fast is rust");
}

#[test]
fn id_conversions() {
    assert_eq!(ids_to_tokens(&[0, 7, u32::MAX]), vec![0usize, 7, u32::MAX as usize]);
    assert_eq!(tokens_to_ids(&[0, 7, (1usize << 32) + 5]), vec![0u32, 7, 5]);
    let ids = vec![50256u32, 464, 0];
    assert_eq!(tokens_to_ids(&ids_to_tokens(&ids)), ids);
    assert_eq!(ids_to_tokens(&[]), Vec::<usize>::new());
}
