//! Loading GPT-2 weights out of a safetensors archive.
//!
//! Every tensor of the archive is stored as little-endian `f32` values. The
//! library keeps each value by its IEEE-754 bit pattern, a `u32`; turning the
//! patterns into `f32` is left to the code that does the arithmetic.

use vstd::prelude::*;
use crate::names::{layer_tensor_name, layer_tensor_name_spec};
use safetensors::tensor::Metadata;
use safetensors::{SafeTensorError, SafeTensors};

verus! {

// ---------------------------------------------------------------------------
// Little-endian words
// ---------------------------------------------------------------------------

/// The little-endian 32-bit word made of `bytes[4 * i .. 4 * i + 4]`.
pub open spec fn le_word(bytes: Seq<u8>, i: int) -> u32 {
    (bytes[4 * i] + 256 * bytes[4 * i + 1] + 65536 * bytes[4 * i + 2] + 16777216 * bytes[4 * i
        + 3]) as u32
}

/// The whole 4-byte chunks of `bytes`, read as little-endian words; bytes
/// after the last whole chunk are not read.
pub open spec fn le_words(bytes: Seq<u8>) -> Seq<u32> {
    Seq::new(bytes.len() / 4, |i: int| le_word(bytes, i))
}

/// Word `i` is read from chunk `i` itself, bytes `4 * i` to `4 * i + 3`, the
/// first of them the least significant; there is one word per whole chunk.
pub proof fn lemma_le_words_read_their_chunks(bytes: Seq<u8>)
    ensures
        le_words(bytes).len() == bytes.len() / 4,
        forall|i: int|
            0 <= i < bytes.len() / 4 ==> #[trigger] le_words(bytes)[i] as int == bytes[4 * i]
                + 256 * bytes[4 * i + 1] + 65536 * bytes[4 * i + 2] + 16777216 * bytes[4 * i + 3],
{
    assert forall|i: int| 0 <= i < bytes.len() / 4 implies #[trigger] le_words(bytes)[i] as int
        == bytes[4 * i] + 256 * bytes[4 * i + 1] + 65536 * bytes[4 * i + 2] + 16777216 * bytes[4
        * i + 3] by {
        assert(4 * i + 3 < bytes.len()) by (nonlinear_arith)
            requires
                0 <= i < bytes.len() / 4,
        ;
    }
}

/// Reads the whole 4-byte chunks of `bytes` as little-endian words.
pub fn decode_le_words(bytes: &[u8]) -> (words: Vec<u32>)
    ensures
        words@ == le_words(bytes@),
        words@.len() == bytes@.len() / 4,
        forall|i: int|
            0 <= i < words@.len() ==> #[trigger] words@[i] as int == bytes@[4 * i] + 256 * bytes@[4
                * i + 1] + 65536 * bytes@[4 * i + 2] + 16777216 * bytes@[4 * i + 3],
{
    proof {
        lemma_le_words_read_their_chunks(bytes@);
    }
    let n = bytes.len() / 4;
    let mut words: Vec<u32> = Vec::with_capacity(n);
    let mut i: usize = 0;
    while i < n
        invariant
            n == bytes@.len() / 4,
            i <= n,
            words@.len() == i,
            forall|k: int| 0 <= k < i ==> #[trigger] words@[k] == le_word(bytes@, k),
        decreases n - i,
    {
        assert(4 * i + 3 < bytes.len()) by (nonlinear_arith)
            requires
                i < n,
                n == bytes.len() / 4,
        ;
        let base = 4 * i;
        let b0 = bytes[base] as u32;
        let b1 = bytes[base + 1] as u32;
        let b2 = bytes[base + 2] as u32;
        let b3 = bytes[base + 3] as u32;
        let w: u32 = b0 + 256 * b1 + 65536 * b2 + 16777216 * b3;
        words.push(w);
        i = i + 1;
    }
    assert(words@ =~= le_words(bytes@));
    words
}

// ---------------------------------------------------------------------------
// The size of an archive
// ---------------------------------------------------------------------------

/// The header length that the first eight bytes of a safetensors file
/// declare, read as a little-endian 64-bit number.
pub open spec fn declared_header_len(file: Seq<u8>) -> nat {
    (file[0] + 0x100 * file[1] + 0x1_0000 * file[2] + 0x100_0000 * file[3] + 0x1_0000_0000
        * file[4] + 0x100_0000_0000 * file[5] + 0x1_0000_0000_0000 * file[6]
        + 0x100_0000_0000_0000 * file[7]) as nat
}

/// The largest header `safetensors` reads.
pub open spec fn max_header_len() -> nat {
    100_000_000
}

/// Whether `safetensors` gets as far as parsing the header of `file`: the
/// eight length bytes are there, the declared length is at most
/// [`max_header_len`], and the header fits in the file.
pub open spec fn header_is_read(file: Seq<u8>) -> bool {
    &&& file.len() >= 8
    &&& declared_header_len(file) <= max_header_len()
    &&& 8 + declared_header_len(file) <= file.len()
}

/// The JSON header of `file`.
pub open spec fn declared_header(file: Seq<u8>) -> Seq<u8> {
    file.subrange(8, 8 + declared_header_len(file) as int)
}

/// The length of the data that the safetensors header `header` declares (the
/// end of its last tensor), if the header parses and its tensors are laid out
/// one after the other.
pub uninterp spec fn safetensors_header_data_len(header: Seq<u8>) -> Option<nat>;

/// The size a header declares for its archive, eight length bytes plus the
/// header plus the data, fits in a `usize`; or the header is never parsed, or
/// does not parse.
pub open spec fn archive_size_fits(file: Seq<u8>) -> bool {
    header_is_read(file) ==> match safetensors_header_data_len(declared_header(file)) {
        Some(data_len) => data_len + 8 + declared_header_len(file) <= usize::MAX,
        None => true,
    }
}

/// Parses a header on its own with `serde_json::from_slice` into
/// `safetensors::tensor::Metadata`, whose deserializer checks the tensors'
/// offsets with checked arithmetic, and hands out `Metadata::data_len`.
/// Stated: the result is the named data length of the header bytes.
#[verifier::external_body]
fn header_data_len(header: &[u8]) -> (r: Option<usize>)
    ensures
        r is Some <==> safetensors_header_data_len(header@) is Some,
        r matches Some(n) ==> safetensors_header_data_len(header@) == Some(n as nat),
{
    match serde_json::from_slice::<Metadata>(header) {
        Ok(metadata) => Some(metadata.data_len()),
        Err(_) => None,
    }
}

/// The size check asks for nothing but that the archive's size fit: for any
/// file whose header `safetensors` parses (eight length bytes, a declared
/// header length `n` of at most 10^8 that the file holds) and that declares
/// `d` bytes of data, the check holds exactly when `d + 8 + n` fits in a
/// `usize`; every other file passes it.
pub proof fn lemma_archive_size_fits_exactly(file: Seq<u8>)
    ensures
        file.len() < 8 ==> archive_size_fits(file),
        file.len() >= 8 ==> ({
            let n = file[0] + 0x100 * file[1] + 0x1_0000 * file[2] + 0x100_0000 * file[3]
                + 0x1_0000_0000 * file[4] + 0x100_0000_0000 * file[5] + 0x1_0000_0000_0000
                * file[6] + 0x100_0000_0000_0000 * file[7];
            &&& (n > 100_000_000 || 8 + n > file.len()) ==> archive_size_fits(file)
            &&& (n <= 100_000_000 && 8 + n <= file.len()) ==> (archive_size_fits(file) <==> match
                safetensors_header_data_len(file.subrange(8, 8 + n)) {
                Some(d) => d + 8 + n <= usize::MAX,
                None => true,
            })
        }),
{
}

/// Whether the size a header declares fits, in the sense of
/// [`archive_size_fits`].
pub fn check_archive_size(file: &[u8]) -> (ok: bool)
    ensures
        ok == archive_size_fits(file@),
{
    if file.len() < 8 {
        return true;
    }
    let n: u64 = file[0] as u64 + 0x100 * (file[1] as u64) + 0x1_0000 * (file[2] as u64)
        + 0x100_0000 * (file[3] as u64) + 0x1_0000_0000 * (file[4] as u64) + 0x100_0000_0000 * (
    file[5] as u64) + 0x1_0000_0000_0000 * (file[6] as u64) + 0x100_0000_0000_0000 * (
    file[7] as u64);
    assert(n == declared_header_len(file@));
    if n > 100_000_000 || n > (file.len() - 8) as u64 {
        return true;
    }
    let header_len = n as usize;
    let header = vstd::slice::slice_subrange(file, 8, 8 + header_len);
    assert(header@ == declared_header(file@));
    match header_data_len(header) {
        Some(data_len) => data_len <= usize::MAX - 8 - header_len,
        None => true,
    }
}

// ---------------------------------------------------------------------------
// The safetensors archive
// ---------------------------------------------------------------------------

#[verifier::external_type_specification]
#[verifier::external_body]
pub struct ExSafeTensors<'data>(SafeTensors<'data>);

#[verifier::external_type_specification]
#[verifier::external_body]
pub struct ExSafeTensorError(SafeTensorError);

/// Whether `safetensors` accepts `file` as a whole archive: its header parses
/// and the tensors it declares cover the data that follows it exactly.
pub uninterp spec fn safetensors_accepts(file: Seq<u8>) -> bool;

/// The data bytes of the tensor called `name` in the archive `file`, if the
/// archive declares a tensor of that name.
pub uninterp spec fn safetensors_tensor_data(file: Seq<u8>, name: Seq<char>) -> Option<Seq<u8>>;

/// A parsed safetensors archive, together with the bytes it was parsed from.
pub struct TensorArchive<'a> {
    tensors: SafeTensors<'a>,
    source: Ghost<Seq<u8>>,
}

impl<'a> TensorArchive<'a> {
    /// The bytes the archive was parsed from.
    pub closed spec fn source(&self) -> Seq<u8> {
        self.source@
    }
}

/// Parses an archive with `SafeTensors::deserialize`. That function reads the
/// header length and the JSON header, checks the declared tensors against the
/// data, and fails with an error otherwise; it reads nothing but `buffer`.
/// It adds the end of the declared data, 8 and the header length without a
/// check, which overflows when the header declares offsets near `usize::MAX`.
/// It reaches that sum only after parsing the same header into the same
/// `Metadata` that `header_data_len` parses, whose data length is the end it
/// adds, so `archive_size_fits` keeps the sum in range; no other step of it can
/// panic.
/// Stated: success depends on the bytes alone, and the archive is the one
/// made of `buffer`.
#[verifier::external_body]
fn parse_archive<'a>(buffer: &'a [u8]) -> (r: Result<TensorArchive<'a>, SafeTensorError>)
    requires
        archive_size_fits(buffer@),
    ensures
        r is Ok <==> safetensors_accepts(buffer@),
        r matches Ok(a) ==> a.source() == buffer@,
{
    match SafeTensors::deserialize(buffer) {
        Ok(tensors) => Ok(TensorArchive { tensors, source: Ghost(buffer@) }),
        Err(e) => Err(e),
    }
}

/// Looks a tensor up with `SafeTensors::tensor` and hands out its bytes with
/// `TensorView::data`. The lookup is by exact name in the header's index, and
/// fails with `TensorNotFound` when no tensor has that name.
/// Stated: the result is the named tensor data of the archive's bytes.
#[verifier::external_body]
fn archive_tensor_data<'a>(archive: &TensorArchive<'a>, name: &str) -> (r: Result<
    &'a [u8],
    SafeTensorError,
>)
    ensures
        r is Ok <==> safetensors_tensor_data(archive.source(), name@) is Some,
        r matches Ok(d) ==> safetensors_tensor_data(archive.source(), name@) == Some(d@),
{
    match archive.tensors.tensor(name) {
        Ok(view) => Ok(view.data()),
        Err(e) => Err(e),
    }
}

/// Whether the archive `file` holds a tensor called `name`.
pub open spec fn has_tensor(file: Seq<u8>, name: Seq<char>) -> bool {
    safetensors_tensor_data(file, name) is Some
}

/// The values of the tensor `name` of `file`, as `f32` bit patterns.
pub open spec fn tensor_words(file: Seq<u8>, name: Seq<char>) -> Seq<u32> {
    le_words(safetensors_tensor_data(file, name).unwrap())
}

// ---------------------------------------------------------------------------
// The weights of the model
// ---------------------------------------------------------------------------

/// Gain and bias of a layer normalisation.
pub struct LayerNormWeights {
    pub weight: Vec<u32>,
    pub bias: Vec<u32>,
}

/// Weights of the multi-head attention block.
pub struct AttentionWeights {
    pub c_attn: Vec<u32>,
    pub c_attn_bias: Vec<u32>,
    pub c_proj: Vec<u32>,
    pub c_proj_bias: Vec<u32>,
}

/// Weights of the feed-forward block.
pub struct MlpWeights {
    pub c_fc: Vec<u32>,
    pub c_fc_bias: Vec<u32>,
    pub c_proj: Vec<u32>,
    pub c_proj_bias: Vec<u32>,
}

/// The weights of one transformer layer.
pub struct Layer {
    pub ln_1: LayerNormWeights,
    pub ln_2: LayerNormWeights,
    pub attn: AttentionWeights,
    pub mlp: MlpWeights,
}

/// All weights of the model, every value an `f32` bit pattern.
pub struct Gpt2Weights {
    pub wte: Vec<u32>,
    pub wpe: Vec<u32>,
    pub layers: Vec<Layer>,
    pub ln_f: LayerNormWeights,
}

/// Errors of [`load_weights`].
#[derive(Debug)]
pub enum LoadError {
    /// The bytes are not a safetensors archive, or the size its header
    /// declares does not fit in a `usize`.
    InvalidArchive,
    /// The archive has no tensor of this name.
    MissingTensor(String),
}

/// The suffixes of a layer's tensors, in the order they are read.
pub open spec fn layer_suffixes() -> Seq<Seq<char>> {
    seq![
        "ln_1.weight"@,
        "ln_1.bias"@,
        "ln_2.weight"@,
        "ln_2.bias"@,
        "attn.c_attn.weight"@,
        "attn.c_attn.bias"@,
        "attn.c_proj.weight"@,
        "attn.c_proj.bias"@,
        "mlp.c_fc.weight"@,
        "mlp.c_fc.bias"@,
        "mlp.c_proj.weight"@,
        "mlp.c_proj.bias"@,
    ]
}

/// The names of the model-wide tensors, in the order they are read.
pub open spec fn model_tensor_names() -> Seq<Seq<char>> {
    seq!["ln_f.weight"@, "ln_f.bias"@, "wte.weight"@, "wpe.weight"@]
}

/// The names of all tensors a model of `n_layer` layers reads, in the order
/// they are read: the twelve tensors of each layer, layer by layer, then the
/// model-wide ones.
pub open spec fn required_tensor_names(n_layer: nat) -> Seq<Seq<char>> {
    Seq::new(
        12 * n_layer + 4,
        |k: int|
            if k < 12 * n_layer {
                layer_tensor_name_spec((k / 12) as nat, layer_suffixes()[k % 12])
            } else {
                model_tensor_names()[k - 12 * n_layer]
            },
    )
}

/// The tensors of a layer, in the order of [`layer_suffixes`].
pub open spec fn layer_words(l: &Layer) -> Seq<Seq<u32>> {
    seq![
        l.ln_1.weight@,
        l.ln_1.bias@,
        l.ln_2.weight@,
        l.ln_2.bias@,
        l.attn.c_attn@,
        l.attn.c_attn_bias@,
        l.attn.c_proj@,
        l.attn.c_proj_bias@,
        l.mlp.c_fc@,
        l.mlp.c_fc_bias@,
        l.mlp.c_proj@,
        l.mlp.c_proj_bias@,
    ]
}

/// The tensors of the model, in the order of [`required_tensor_names`].
pub open spec fn model_words(w: &Gpt2Weights) -> Seq<Seq<u32>> {
    let n = w.layers@.len();
    Seq::new(
        12 * n + 4,
        |k: int|
            if k < 12 * n {
                layer_words(&w.layers@[k / 12])[k % 12]
            } else {
                seq![w.ln_f.weight@, w.ln_f.bias@, w.wte@, w.wpe@][k - 12 * n]
            },
    )
}

/// `names[k]` is the first name of `names` that `file` lacks.
pub open spec fn first_absent(file: Seq<u8>, names: Seq<Seq<char>>, k: int) -> bool {
    &&& 0 <= k < names.len()
    &&& !has_tensor(file, names[k])
    &&& forall|j: int| 0 <= j < k ==> has_tensor(file, #[trigger] names[j])
}

/// Reads the tensor `name` of the archive.
fn read_tensor(archive: &TensorArchive, name: &str) -> (r: Result<Vec<u32>, LoadError>)
    ensures
        r is Ok <==> has_tensor(archive.source(), name@),
        r matches Ok(w) ==> w@ == tensor_words(archive.source(), name@),
        r matches Err(e) ==> e matches LoadError::MissingTensor(n) && n@ == name@,
{
    match archive_tensor_data(archive, name) {
        Ok(data) => Ok(decode_le_words(data)),
        Err(_) => Err(LoadError::MissingTensor(String::from_str(name))),
    }
}

/// The name of the `j`-th model-wide tensor.
fn model_tensor_name(j: usize) -> (s: &'static str)
    requires
        j < 4,
    ensures
        s@ == model_tensor_names()[j as int],
{
    match j {
        0 => "ln_f.weight",
        1 => "ln_f.bias",
        2 => "wte.weight",
        _ => "wpe.weight",
    }
}

/// The suffix of the `j`-th tensor of a layer.
fn layer_suffix(j: usize) -> (s: &'static str)
    requires
        j < 12,
    ensures
        s@ == layer_suffixes()[j as int],
{
    match j {
        0 => "ln_1.weight",
        1 => "ln_1.bias",
        2 => "ln_2.weight",
        3 => "ln_2.bias",
        4 => "attn.c_attn.weight",
        5 => "attn.c_attn.bias",
        6 => "attn.c_proj.weight",
        7 => "attn.c_proj.bias",
        8 => "mlp.c_fc.weight",
        9 => "mlp.c_fc.bias",
        10 => "mlp.c_proj.weight",
        _ => "mlp.c_proj.bias",
    }
}

/// The name of the `j`-th tensor of layer `layer`.
pub open spec fn layer_name(layer: nat, j: int) -> Seq<char> {
    layer_tensor_name_spec(layer, layer_suffixes()[j])
}

/// `k = 12 * layer + j` is the `j`-th tensor of layer `layer` in the reading
/// order.
proof fn lemma_layer_index(layer: int, j: int)
    requires
        0 <= layer,
        0 <= j < 12,
    ensures
        (12 * layer + j) / 12 == layer,
        (12 * layer + j) % 12 == j,
{
    vstd::arithmetic::div_mod::lemma_fundamental_div_mod_converse(12 * layer + j, 12, layer, j);
}

/// Reads the `j`-th tensor of layer `layer`.
fn read_layer_tensor(archive: &TensorArchive, layer: usize, j: usize) -> (r: Result<
    Vec<u32>,
    LoadError,
>)
    requires
        j < 12,
    ensures
        r is Ok <==> has_tensor(archive.source(), layer_name(layer as nat, j as int)),
        r matches Ok(w) ==> w@ == tensor_words(archive.source(), layer_name(layer as nat, j as int)),
        r matches Err(e) ==> e matches LoadError::MissingTensor(n) && n@ == layer_name(
            layer as nat,
            j as int,
        ),
{
    let name = layer_tensor_name(layer, layer_suffix(j));
    read_tensor(archive, name.as_str())
}

/// `j` is the first tensor of layer `layer` that `file` lacks.
pub open spec fn layer_first_absent(file: Seq<u8>, layer: nat, j: int) -> bool {
    &&& 0 <= j < 12
    &&& !has_tensor(file, layer_name(layer, j))
    &&& forall|i: int| 0 <= i < j ==> has_tensor(file, #[trigger] layer_name(layer, i))
}

/// Removes and returns the last of the tensors read so far.
fn take_last(tensors: &mut Vec<Vec<u32>>) -> (last: Vec<u32>)
    requires
        old(tensors)@.len() > 0,
    ensures
        last == old(tensors)@.last(),
        final(tensors)@ == old(tensors)@.drop_last(),
{
    match tensors.pop() {
        Some(t) => t,
        None => Vec::new(),
    }
}

/// Reads the twelve tensors of layer `layer`, in the order of
/// [`layer_suffixes`], stopping at the first one that is missing.
fn load_layer(archive: &TensorArchive, layer: usize) -> (r: Result<Layer, LoadError>)
    ensures
        r matches Ok(l) ==> forall|j: int|
            0 <= j < 12 ==> has_tensor(archive.source(), #[trigger] layer_name(layer as nat, j))
                && layer_words(&l)[j] == tensor_words(
                archive.source(),
                layer_name(layer as nat, j),
            ),
        r matches Err(e) ==> exists|j: int|
            #[trigger] layer_first_absent(archive.source(), layer as nat, j) && (e matches LoadError::MissingTensor(n) && n@ == layer_name(layer as nat, j)),
{
    let ghost file = archive.source();
    let mut tensors: Vec<Vec<u32>> = Vec::new();
    let mut j: usize = 0;
    while j < 12
        invariant
            file == archive.source(),
            j <= 12,
            tensors@.len() == j,
            forall|i: int|
                0 <= i < j ==> has_tensor(file, #[trigger] layer_name(layer as nat, i))
                    && tensors@[i]@ == tensor_words(file, layer_name(layer as nat, i)),
        decreases 12 - j,
    {
        match read_layer_tensor(archive, layer, j) {
            Ok(w) => tensors.push(w),
            Err(e) => {
                assert(layer_first_absent(file, layer as nat, j as int));
                return Err(e);
            },
        }
        j = j + 1;
    }
    let ghost read = tensors@;
    let mlp_c_proj_bias = take_last(&mut tensors);
    let mlp_c_proj = take_last(&mut tensors);
    let mlp_c_fc_bias = take_last(&mut tensors);
    let mlp_c_fc = take_last(&mut tensors);
    let attn_c_proj_bias = take_last(&mut tensors);
    let attn_c_proj = take_last(&mut tensors);
    let attn_c_attn_bias = take_last(&mut tensors);
    let attn_c_attn = take_last(&mut tensors);
    let ln_2_bias = take_last(&mut tensors);
    let ln_2_weight = take_last(&mut tensors);
    let ln_1_bias = take_last(&mut tensors);
    let ln_1_weight = take_last(&mut tensors);
    let l = Layer {
        ln_1: LayerNormWeights { weight: ln_1_weight, bias: ln_1_bias },
        ln_2: LayerNormWeights { weight: ln_2_weight, bias: ln_2_bias },
        attn: AttentionWeights {
            c_attn: attn_c_attn,
            c_attn_bias: attn_c_attn_bias,
            c_proj: attn_c_proj,
            c_proj_bias: attn_c_proj_bias,
        },
        mlp: MlpWeights {
            c_fc: mlp_c_fc,
            c_fc_bias: mlp_c_fc_bias,
            c_proj: mlp_c_proj,
            c_proj_bias: mlp_c_proj_bias,
        },
    };
    assert(layer_words(&l) =~= read.map_values(|t: Vec<u32>| t@));
    Ok(l)
}

/// The tensors `layers` hold are the first `12 * layers.len()` required
/// tensors of `file`.
pub open spec fn layers_read(file: Seq<u8>, layers: Seq<Layer>, n_layer: nat) -> bool {
    forall|k: int|
        0 <= k < 12 * layers.len() ==> has_tensor(file, #[trigger] required_tensor_names(n_layer)[k])
            && layer_words(&layers[k / 12])[k % 12] == tensor_words(
            file,
            required_tensor_names(n_layer)[k],
        )
}

/// Loads the weights of a model of `n_layer` layers from the bytes of a
/// safetensors archive. The tensors are read in the order of
/// [`required_tensor_names`]; the first one the archive lacks is reported.
pub fn load_weights(file: &[u8], n_layer: usize) -> (r: Result<Gpt2Weights, LoadError>)
    ensures
        !(archive_size_fits(file@) && safetensors_accepts(file@)) ==> r matches Err(
            LoadError::InvalidArchive,
        ),
        archive_size_fits(file@) && safetensors_accepts(file@) ==> match r {
            Ok(w) => {
                &&& w.layers@.len() == n_layer
                &&& forall|k: int|
                    0 <= k < required_tensor_names(n_layer as nat).len() ==> has_tensor(
                        file@,
                        #[trigger] required_tensor_names(n_layer as nat)[k],
                    ) && model_words(&w)[k] == tensor_words(
                        file@,
                        required_tensor_names(n_layer as nat)[k],
                    )
            },
            Err(LoadError::InvalidArchive) => false,
            Err(LoadError::MissingTensor(name)) => exists|k: int|
                #[trigger] first_absent(file@, required_tensor_names(n_layer as nat), k) && name@
                    == required_tensor_names(n_layer as nat)[k],
        },
{
    if !check_archive_size(file) {
        return Err(LoadError::InvalidArchive);
    }
    let archive = match parse_archive(file) {
        Ok(a) => a,
        Err(_) => return Err(LoadError::InvalidArchive),
    };
    let ghost names = required_tensor_names(n_layer as nat);
    let mut layers: Vec<Layer> = Vec::new();
    let mut i: usize = 0;
    while i < n_layer
        invariant
            archive.source() == file@,
            archive_size_fits(file@),
            safetensors_accepts(file@),
            names == required_tensor_names(n_layer as nat),
            i <= n_layer,
            layers@.len() == i,
            layers_read(file@, layers@, n_layer as nat),
        decreases n_layer - i,
    {
        match load_layer(&archive, i) {
            Ok(l) => {
                let ghost old_layers = layers@;
                layers.push(l);
                assert forall|k: int| 0 <= k < 12 * layers@.len() implies has_tensor(
                    file@,
                    #[trigger] names[k],
                ) && layer_words(&layers@[k / 12])[k % 12] == tensor_words(file@, names[k]) by {
                    if k < 12 * i {
                        assert(k / 12 < i) by {
                            vstd::arithmetic::div_mod::lemma_div_is_ordered(k, 12 * i - 1, 12);
                            lemma_layer_index(i - 1, 11);
                        }
                        assert(layers@[k / 12] == old_layers[k / 12]);
                    } else {
                        let j = k - 12 * i;
                        lemma_layer_index(i as int, j);
                        assert(names[k] == layer_name(i as nat, j));
                        assert(has_tensor(file@, layer_name(i as nat, j)));
                    }
                }
            },
            Err(e) => {
                proof {
                    let j = choose|j: int|
                        #[trigger] layer_first_absent(file@, i as nat, j) && (e matches LoadError::MissingTensor(n) && n@ == layer_name(i as nat, j));
                    let k = 12 * i + j;
                    lemma_layer_index(i as int, j);
                    assert(names[k] == layer_name(i as nat, j));
                    assert forall|m: int| 0 <= m < k implies has_tensor(file@, #[trigger] names[m]) by {
                        if m >= 12 * i {
                            lemma_layer_index(i as int, m - 12 * i);
                            assert(names[m] == layer_name(i as nat, m - 12 * i));
                            assert(has_tensor(file@, layer_name(i as nat, m - 12 * i)));
                        }
                    }
                    assert(first_absent(file@, names, k));
                }
                return Err(e);
            },
        }
        i = i + 1;
    }
    let ghost base = 12 * (n_layer as int);
    let mut tensors: Vec<Vec<u32>> = Vec::new();
    let mut j: usize = 0;
    while j < 4
        invariant
            archive.source() == file@,
            names == required_tensor_names(n_layer as nat),
            base == 12 * (n_layer as int),
            archive_size_fits(file@),
            safetensors_accepts(file@),
            layers@.len() == n_layer,
            layers_read(file@, layers@, n_layer as nat),
            j <= 4,
            tensors@.len() == j,
            forall|i: int|
                0 <= i < j ==> has_tensor(file@, #[trigger] names[base + i]) && tensors@[i]@
                    == tensor_words(file@, names[base + i]),
        decreases 4 - j,
    {
        let name = model_tensor_name(j);
        assert(names[base + j] == name@);
        match read_tensor(&archive, name) {
            Ok(w) => tensors.push(w),
            Err(e) => {
                proof {
                    assert forall|m: int| 0 <= m < base + j implies has_tensor(
                        file@,
                        #[trigger] names[m],
                    ) by {
                        if m >= base {
                            assert(names[base + (m - base)] == names[m]);
                        }
                    }
                    assert(first_absent(file@, names, base + j));
                }
                return Err(e);
            },
        }
        j = j + 1;
    }
    let ghost read = tensors@;
    let wpe = take_last(&mut tensors);
    let wte = take_last(&mut tensors);
    let ln_f_bias = take_last(&mut tensors);
    let ln_f_weight = take_last(&mut tensors);
    let weights = Gpt2Weights {
        wte,
        wpe,
        layers,
        ln_f: LayerNormWeights { weight: ln_f_weight, bias: ln_f_bias },
    };
    assert forall|k: int| 0 <= k < names.len() implies has_tensor(file@, #[trigger] names[k])
        && model_words(&weights)[k] == tensor_words(file@, names[k]) by {
        if k >= base {
            assert(names[base + (k - base)] == names[k]);
            assert(model_words(&weights)[k] == read[k - base]@);
        }
    }
    Ok(weights)
}

} // verus!
