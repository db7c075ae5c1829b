//! The per-image compression outcome record and the keep-or-copy policy:
//! when the compressed file would be at least as large as the original, the
//! caller substitutes a verbatim copy of the original instead.

use vstd::prelude::*;

verus! {

/// Outcome of compressing one image.
#[derive(Debug, Clone)]
pub struct CompressionResult {
    pub success: bool,
    pub original_size: u64,
    pub compressed_size: u64,
    pub output_path: String,
    pub error: Option<String>,
}

/// The compressed output is kept only when it is strictly smaller than the
/// original; otherwise the caller copies the original over it.
pub fn keep_compressed(original_size: u64, compressed_size: u64) -> (r: bool)
    ensures
        r == (compressed_size < original_size),
{
    compressed_size < original_size
}

/// A successful outcome carrying the size actually written.
pub fn success_result(original_size: u64, compressed_size: u64, output_path: String) -> (r: CompressionResult)
    ensures
        r.success,
        r.original_size == original_size,
        r.compressed_size == compressed_size,
        r.output_path == output_path,
        r.error is None,
{
    CompressionResult {
        success: true,
        original_size,
        compressed_size,
        output_path,
        error: None,
    }
}

/// A failed outcome: no compressed size, the error message kept.
pub fn failure_result(original_size: u64, output_path: String, message: String) -> (r: CompressionResult)
    ensures
        !r.success,
        r.original_size == original_size,
        r.compressed_size == 0,
        r.output_path == output_path,
        r.error == Some(message),
{
    CompressionResult {
        success: false,
        original_size,
        compressed_size: 0,
        output_path,
        error: Some(message),
    }
}

} // verus!
