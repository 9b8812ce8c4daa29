//! Names of the tensors in a GPT-2 weight archive.
//!
//! Per-layer tensors are named `h.<layer>.<suffix>`, with the layer number in
//! decimal, and the model-wide tensors by their suffix alone.

use vstd::prelude::*;

verus! {

/// The character of a decimal digit.
pub open spec fn digit_char(d: nat) -> char {
    (48 + d) as char
}

/// The decimal digits of `n`, most significant first, with no leading zeros.
pub open spec fn decimal(n: nat) -> Seq<char>
    decreases n,
{
    if n < 10 {
        seq![digit_char(n)]
    } else {
        decimal(n / 10).push(digit_char(n % 10))
    }
}

/// Appends one character to a string.
#[verifier::external_body]
fn push_char(s: &mut String, c: char)
    ensures
        final(s)@ == old(s)@.push(c),
{
    s.push(c);
}

/// Appends the decimal digits of `n` to `s`.
fn push_decimal(s: &mut String, n: usize)
    ensures
        final(s)@ == old(s)@ + decimal(n as nat),
    decreases n,
{
    if n >= 10 {
        push_decimal(s, n / 10);
    }
    let d: u8 = (n % 10) as u8;
    let c: char = (48u8 + d) as char;
    assert(c == digit_char((n % 10) as nat));
    push_char(s, c);
    assert(decimal(n as nat) == if n < 10 {
        seq![digit_char(n as nat)]
    } else {
        decimal((n / 10) as nat).push(digit_char((n % 10) as nat))
    });
}

/// The name of the tensor `suffix` of layer `layer`: `h.<layer>.<suffix>`.
pub open spec fn layer_tensor_name_spec(layer: nat, suffix: Seq<char>) -> Seq<char> {
    seq!['h', '.'] + decimal(layer) + seq!['.'] + suffix
}

/// Builds `h.<layer>.<suffix>`.
pub fn layer_tensor_name(layer: usize, suffix: &str) -> (name: String)
    ensures
        name@ == layer_tensor_name_spec(layer as nat, suffix@),
{
    let mut name = String::new();
    push_char(&mut name, 'h');
    push_char(&mut name, '.');
    push_decimal(&mut name, layer);
    push_char(&mut name, '.');
    name.append(suffix);
    assert(name@ =~= layer_tensor_name_spec(layer as nat, suffix@));
    name
}

} // verus!
