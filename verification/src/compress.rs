//! Artifact compression used when images are packaged for transfer: a
//! gzip compressor with a configurable level behind the common compression
//! interface, and a disabled mode that passes data through unchanged.

use vstd::prelude::*;

verus! {

/// A failed compression or decompression step; the text tells why.
#[derive(Debug)]
pub struct CompressError {
    /// What went wrong.
    pub message: String,
}

/// The interface every compression algorithm offers: compress, the inverse
/// for verification, and a name.
pub trait CompressionInterface {
    /// Compresses `data`.
    fn compress(&self, data: &[u8]) -> Result<Vec<u8>, CompressError>;

    /// Decompresses `compressed_data`, mainly to verify a round trip.
    fn decompress(&self, compressed_data: &[u8]) -> Result<Vec<u8>, CompressError>;

    /// The algorithm's name.
    fn get_name(&self) -> &'static str;
}

/// Gzip compressor with a configurable compression level; level zero
/// disables compression and data passes through unchanged.
pub struct GzipCompressor {
    /// Compression level, clamped to at most nine.
    level: u8,
    /// Whether compression happens at all.
    enabled: bool,
}

/// What gzip decompression yields on a byte sequence: the decoded bytes,
/// or nothing where the sequence is no well-formed gzip stream.
/// Decompression is fully determined by the format, so the result is a
/// function of the input alone.
pub uninterp spec fn gunzip_of(data: Seq<u8>) -> Option<Seq<u8>>;

/// Relies on flate2's GzEncoder: compresses `data` into the gzip format at
/// the given level; decompressing what it produced yields `data` again,
/// the format being lossless.
#[verifier::external_body]
fn gzip_compress(level: u32, data: &[u8]) -> (r: Result<Vec<u8>, String>)
    ensures
        r matches Ok(v) ==> gunzip_of(v@) == Some(data@),
{
    let mut encoder = flate2::write::GzEncoder::new(Vec::new(), flate2::Compression::new(level));
    if let Err(e) = std::io::Write::write_all(&mut encoder, data) {
        return Err(format!("Gzip compression failed: {}", e));
    }
    match encoder.finish() {
        Ok(v) => Ok(v),
        Err(e) => Err(format!("Gzip finish failed: {}", e)),
    }
}

/// Relies on flate2's GzDecoder: decompresses gzip-format `data`.
#[verifier::external_body]
fn gzip_decompress(data: &[u8]) -> (r: Result<Vec<u8>, String>)
    ensures
        r matches Ok(v) ==> gunzip_of(data@) == Some(v@),
{
    let mut decoder = flate2::read::GzDecoder::new(data);
    let mut buffer = Vec::new();
    match std::io::Read::read_to_end(&mut decoder, &mut buffer) {
        Ok(_) => Ok(buffer),
        Err(e) => Err(format!("Gzip decompression failed: {}", e)),
    }
}

impl GzipCompressor {
    pub closed spec fn spec_level(&self) -> u8 {
        self.level
    }

    pub closed spec fn spec_enabled(&self) -> bool {
        self.enabled
    }

    /// A compressor at the given level, clamped to at most nine; level
    /// zero means no compression.
    pub fn new(level: u8) -> (r: Self)
        ensures
            r.spec_level() == (if level > 9 {
                9u8
            } else {
                level
            }),
            r.spec_enabled() == (level > 0),
    {
        let l: u8 = if level > 9 {
            9
        } else {
            level
        };
        GzipCompressor { level: l, enabled: level > 0 }
    }

    /// A disabled compressor: data passes through unchanged.
    pub fn new_disabled() -> (r: Self)
        ensures
            r.spec_level() == 0,
            !r.spec_enabled(),
    {
        GzipCompressor { level: 0, enabled: false }
    }

    /// The numeric level handed to the compression backend: none when
    /// disabled, else the fast, best or default preset.
    fn get_compression_level(&self) -> (r: u32)
        ensures
            r == (if !self.spec_enabled() || self.spec_level() == 0 {
                0u32
            } else if self.spec_level() == 1 {
                1u32
            } else if self.spec_level() == 9 {
                9u32
            } else {
                6u32
            }),
    {
        if !self.enabled {
            0
        } else if self.level == 0 {
            0
        } else if self.level == 1 {
            1
        } else if self.level == 9 {
            9
        } else {
            6
        }
    }
}

impl Default for GzipCompressor {
    /// The default compressor, at the default level.
    fn default() -> (r: Self)
        ensures
            r.spec_level() == 6,
            r.spec_enabled(),
    {
        GzipCompressor::new(6)
    }
}

impl CompressionInterface for GzipCompressor {
    /// With compression disabled, the data passes through unchanged; with
    /// it enabled, decompressing the result yields the data again.
    fn compress(&self, data: &[u8]) -> (r: Result<Vec<u8>, CompressError>)
        ensures
            !self.spec_enabled() ==> (r matches Ok(v) && v@ == data@),
            self.spec_enabled() ==> (r matches Ok(v) ==> gunzip_of(v@) == Some(data@)),
    {
        if !self.enabled {
            // with compression disabled, the data itself is the result
            let mut v: Vec<u8> = Vec::new();
            v.extend_from_slice(data);
            return Ok(v);
        }
        match gzip_compress(self.get_compression_level(), data) {
            Ok(v) => Ok(v),
            Err(message) => Err(CompressError { message }),
        }
    }

    /// With compression disabled, the data passes through unchanged; with
    /// it enabled, the result is what gzip decompression yields.
    fn decompress(&self, compressed_data: &[u8]) -> (r: Result<Vec<u8>, CompressError>)
        ensures
            !self.spec_enabled() ==> (r matches Ok(v) && v@ == compressed_data@),
            self.spec_enabled() ==> (r matches Ok(v) ==> gunzip_of(compressed_data@) == Some(
                v@,
            )),
    {
        if !self.enabled {
            let mut v: Vec<u8> = Vec::new();
            v.extend_from_slice(compressed_data);
            return Ok(v);
        }
        match gzip_decompress(compressed_data) {
            Ok(v) => Ok(v),
            Err(message) => Err(CompressError { message }),
        }
    }

    /// The name tells the mode apart: the algorithm's name, or `none`.
    fn get_name(&self) -> (r: &'static str)
        ensures
            self.spec_enabled() ==> r@ == "gzip"@,
            !self.spec_enabled() ==> r@ == "none"@,
    {
        if self.enabled {
            "gzip"
        } else {
            "none"
        }
    }
}

} // verus!
