use gpt2_rs::names::layer_tensor_name;

#[test]
fn layer_names_follow_the_archive_layout() {
    assert_eq!(layer_tensor_name(0, "ln_1.weight"), "h.0.ln_1.weight");
    assert_eq!(layer_tensor_name(11, "attn.c_attn.bias"), "h.11.attn.c_attn.bias");
    assert_eq!(layer_tensor_name(105, "mlp.c_proj.weight"), "h.105.mlp.c_proj.weight");
    assert_eq!(layer_tensor_name(7, ""), "h.7.");
}

#[test]
fn layer_numbers_are_decimal() {
    for i in [0usize, 9, 10, 99, 100, 12345, usize::MAX] {
        assert_eq!(layer_tensor_name(i, "x"), format!("h.{}.x", i));
    }
}
