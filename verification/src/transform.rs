//! The transform pipeline: minification for the minifiable categories,
//! then brotli compression, with a raw-bytes fallback when compression
//! fails. The two outside calls stand behind trusted wrappers; everything
//! around them is verified.

use vstd::prelude::*;

use crate::bytes::copy_bytes;
use crate::content::{minifiable, ContentCategory, Encoding};

verus! {

/// The bytes `minify_html::minify` returns for the given input under this
/// crate's fixed configuration (comments dropped).
pub uninterp spec fn minified_of(raw: Seq<u8>) -> Seq<u8>;

/// The bytes brotli compression at best quality, window and block size
/// returns for the given input.
pub uninterp spec fn compressed_of(data: Seq<u8>) -> Seq<u8>;

/// Whether brotli compression at those fixed settings completes for the
/// given input. The encoder is deterministic, so success too is a
/// function of the input bytes alone.
pub uninterp spec fn compress_succeeds(data: Seq<u8>) -> bool;

/// Relies on `minify_html::minify`: it computes minified HTML from the
/// input bytes and the configuration alone, so with the fixed configuration
/// built here its result is a function of the input bytes.
#[verifier::external_body]
fn minify_bytes(raw: &Vec<u8>) -> (r: Vec<u8>)
    ensures
        r@ == minified_of(raw@),
{
    let mut cfg = minify_html::Cfg::new();
    cfg.keep_comments = false;
    minify_html::minify(raw.as_slice(), &cfg)
}

/// Relies on brotlic's `BrotliEncoderOptions` and `CompressorWriter`
/// writing into a plain byte vector: with the quality, window size and
/// block size fixed at their best settings the encoder is deterministic,
/// so both the compressed stream and whether compression completes are
/// functions of the input bytes; any error building the encoder, writing,
/// or finishing the stream yields `None`.
#[verifier::external_body]
fn compress_bytes(data: &Vec<u8>) -> (r: Option<Vec<u8>>)
    ensures
        (r is Some <==> compress_succeeds(data@)),
        r matches Some(c) ==> c@ == compressed_of(data@),
{
    let encoder = brotlic::BrotliEncoderOptions::new()
        .quality(brotlic::Quality::best())
        .window_size(brotlic::WindowSize::best())
        .block_size(brotlic::BlockSize::best())
        .build();
    let encoder = match encoder {
        Ok(e) => e,
        Err(_) => return None,
    };
    let mut writer = brotlic::CompressorWriter::with_encoder(encoder, Vec::new());
    if std::io::Write::write_all(&mut writer, data.as_slice()).is_err() {
        return None;
    }
    writer.into_inner().ok()
}

/// What the minification stage yields: the minifier's output for the
/// minifiable categories, the raw bytes unchanged otherwise.
pub open spec fn spec_minify_stage(raw: Seq<u8>, cat: ContentCategory) -> Seq<u8> {
    if minifiable(cat) {
        minified_of(raw)
    } else {
        raw
    }
}

/// Law: a non-minifiable category passes the minification stage through
/// untouched; the stage's output is exactly the raw bytes.
pub proof fn lemma_passthrough(raw: Seq<u8>, cat: ContentCategory)
    requires
        !minifiable(cat),
    ensures
        spec_minify_stage(raw, cat) == raw,
{
}

/// Runs the minification stage: the minifier for minifiable categories, a
/// plain copy otherwise.
pub fn minify_stage(raw: &Vec<u8>, cat: ContentCategory) -> (r: Vec<u8>)
    ensures
        r@ == spec_minify_stage(raw@, cat),
{
    if cat.is_minifiable() {
        minify_bytes(raw)
    } else {
        copy_bytes(raw)
    }
}

/// Runs the compression stage; `None` reports a compression failure, which
/// the pipeline turns into the raw-bytes fallback.
pub fn compress_stage(data: &Vec<u8>) -> (r: Option<Vec<u8>>)
    ensures
        (r is Some <==> compress_succeeds(data@)),
        r matches Some(c) ==> c@ == compressed_of(data@),
{
    compress_bytes(data)
}

/// One fully processed asset: the bytes to serve, the scheme they are
/// encoded with, and the three byte-length measurements kept for
/// observability.
pub struct TransformOutput {
    pub body: Vec<u8>,
    pub encoding: Encoding,
    pub len_raw: usize,
    pub len_minified: usize,
    pub len_compressed: usize,
}

/// Mathematical model of a processed asset.
#[verifier::ext_equal]
pub struct TransformModel {
    pub body: Seq<u8>,
    pub encoding: Encoding,
    pub len_raw: int,
    pub len_minified: int,
    pub len_compressed: int,
}

impl View for TransformOutput {
    type V = TransformModel;

    open spec fn view(&self) -> TransformModel {
        TransformModel {
            body: self.body@,
            encoding: self.encoding,
            len_raw: self.len_raw as int,
            len_minified: self.len_minified as int,
            len_compressed: self.len_compressed as int,
        }
    }
}

/// What the pipeline guarantees of its output for the given raw bytes and
/// category: the measurements are those of the stages' outputs, and the
/// body is the compressed minified bytes, with the raw bytes as fallback
/// exactly when compression fails on the minified bytes.
pub open spec fn transform_ok(raw: Seq<u8>, cat: ContentCategory, t: TransformModel) -> bool {
    &&& t.len_raw == raw.len()
    &&& t.len_minified == spec_minify_stage(raw, cat).len()
    &&& t.len_compressed == t.body.len()
    &&& (t.encoding is Brotli <==> compress_succeeds(spec_minify_stage(raw, cat)))
    &&& (t.encoding is Brotli ==> t.body == compressed_of(spec_minify_stage(raw, cat)))
    &&& (t.encoding is Identity ==> t.body == raw)
}

/// Assembles the pipeline's output from the raw bytes, the minified length,
/// and what the compression stage returned. This function is exact: every
/// field of the result is pinned by its arguments.
pub fn assemble_output(raw: Vec<u8>, len_minified: usize, compressed: Option<Vec<u8>>) -> (t:
    TransformOutput)
    ensures
        t@.len_raw == raw@.len(),
        t@.len_minified == len_minified,
        t@.len_compressed == t@.body.len(),
        compressed matches Some(c) ==> t@.encoding is Brotli && t@.body == c@,
        compressed is None ==> t@.encoding is Identity && t@.body == raw@,
{
    let len_raw = raw.len();
    match compressed {
        Some(c) => TransformOutput {
            len_compressed: c.len(),
            body: c,
            encoding: Encoding::Brotli,
            len_raw,
            len_minified,
        },
        None => TransformOutput {
            len_compressed: len_raw,
            body: raw,
            encoding: Encoding::Identity,
            len_raw,
            len_minified,
        },
    }
}

/// Runs the whole pipeline on one raw asset: minify (where the category
/// calls for it), compress, and fall back to the raw bytes when
/// compression fails.
pub fn transform(raw: Vec<u8>, cat: ContentCategory) -> (t: TransformOutput)
    ensures
        transform_ok(raw@, cat, t@),
{
    let minified = minify_stage(&raw, cat);
    let len_minified = minified.len();
    let compressed = compress_stage(&minified);
    assemble_output(raw, len_minified, compressed)
}

} // verus!
