//! Tests of the transform pipeline: classification, minification,
//! compression, and the assembled output.

use std::io::Read;

use assetpipe::content::{category_of, content_type_value, encoding_token, ContentCategory, Encoding};
use assetpipe::transform::{compress_stage, minify_stage, transform};

fn decompress(data: &[u8]) -> Vec<u8> {
    let mut reader = brotlic::DecompressorReader::new(data);
    let mut out = Vec::new();
    reader.read_to_end(&mut out).unwrap();
    out
}

#[test]
fn categories_follow_extensions() {
    assert_eq!(category_of(&b"index.html".to_vec()), ContentCategory::Html);
    assert_eq!(category_of(&b"app.js".to_vec()), ContentCategory::Javascript);
    assert_eq!(category_of(&b"style.css".to_vec()), ContentCategory::Css);
    assert_eq!(category_of(&b"image.png".to_vec()), ContentCategory::Other);
    assert_eq!(category_of(&b"".to_vec()), ContentCategory::Other);
    assert_eq!(category_of(&b"js".to_vec()), ContentCategory::Other);
    assert_eq!(category_of(&b"html".to_vec()), ContentCategory::Other);
}

#[test]
fn content_type_values() {
    assert_eq!(content_type_value(ContentCategory::Html), "text/html");
    assert_eq!(content_type_value(ContentCategory::Javascript), "text/javascript");
    assert_eq!(content_type_value(ContentCategory::Css), "text/css");
    assert_eq!(content_type_value(ContentCategory::Other), "application/octet-stream");
}

#[test]
fn encoding_tokens() {
    assert_eq!(encoding_token(Encoding::Brotli), "br");
    assert_eq!(encoding_token(Encoding::Identity), "identity");
}

#[test]
fn other_category_passes_through_unchanged() {
    let raw = b"<p>  spaced  text  </p><!-- a comment -->".to_vec();
    let out = minify_stage(&raw, ContentCategory::Other);
    assert_eq!(out, raw);
}

#[test]
fn html_minification_does_real_work() {
    let raw = b"<p>  Hello,   world!  </p><!-- secret comment -->".to_vec();
    let out = minify_stage(&raw, ContentCategory::Html);
    assert!(out.len() < raw.len());
    assert_ne!(out, raw);
    // the comment must be gone
    assert!(!out.windows(6).any(|w| w == b"secret"));
}

#[test]
fn compression_round_trips() {
    let raw = b"aaaaaaaaaabbbbbbbbbbccccccccccaaaaaaaaaabbbbbbbbbb".to_vec();
    let compressed = compress_stage(&raw).unwrap();
    assert_ne!(compressed, raw);
    assert!(compressed.len() < raw.len());
    assert_eq!(decompress(&compressed), raw);
}

#[test]
fn transform_other_category_records_measurements() {
    let raw = b"binary-ish payload payload payload".to_vec();
    let t = transform(raw.clone(), ContentCategory::Other);
    assert_eq!(t.len_raw, raw.len());
    // passthrough: the minified length is the raw length
    assert_eq!(t.len_minified, raw.len());
    assert_eq!(t.len_compressed, t.body.len());
    assert_eq!(t.encoding, Encoding::Brotli);
    assert_eq!(decompress(&t.body), raw);
}

#[test]
fn transform_html_compresses_the_minified_bytes() {
    let raw = b"<html><body><p>  Hello,   world!  </p><!-- gone --></body></html>".to_vec();
    let minified = minify_stage(&raw, ContentCategory::Html);
    let t = transform(raw.clone(), ContentCategory::Html);
    assert_eq!(t.len_raw, raw.len());
    assert_eq!(t.len_minified, minified.len());
    assert_eq!(t.encoding, Encoding::Brotli);
    assert_eq!(decompress(&t.body), minified);
}
