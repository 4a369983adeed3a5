//! Compression, configuration items and path derivation.

use uboot_shell::compress::{CompressionInterface, GzipCompressor};
use uboot_shell::config_item::{default_schema_by_init, EnumItem};
use uboot_shell::paths::{OutputConfig, PathConfig};

#[test]
fn test_gzip_compression() {
    let compressor = GzipCompressor::new(6);
    let original_data = "Hello, World! This is a test string for gzip compression. ".repeat(10);
    let original_bytes = original_data.as_bytes();

    let compressed = compressor
        .compress(original_bytes)
        .expect("Compression should succeed");
    assert!(
        compressed.len() < original_bytes.len(),
        "Compressed data should be smaller"
    );

    let decompressed = compressor
        .decompress(&compressed)
        .expect("Decompression should succeed");
    assert_eq!(
        decompressed, original_bytes,
        "Decompressed data should match original"
    );
}

#[test]
fn test_disabled_compression() {
    let compressor = GzipCompressor::new_disabled();
    let original_data = b"Hello, World!";

    let compressed = compressor
        .compress(original_data)
        .expect("Compression should succeed");
    assert_eq!(
        compressed, original_data,
        "Disabled compression should return original data"
    );

    let decompressed = compressor
        .decompress(&compressed)
        .expect("Decompression should succeed");
    assert_eq!(
        decompressed, original_data,
        "Decompressed data should match original"
    );
}

#[test]
fn test_compressor_name() {
    let enabled_compressor = GzipCompressor::new(6);
    assert_eq!(enabled_compressor.get_name(), "gzip");

    let disabled_compressor = GzipCompressor::new_disabled();
    assert_eq!(disabled_compressor.get_name(), "none");
}

#[test]
fn test_schema_default() {
    let name = "config.toml";
    let expected_schema_name = "config-schema.json";
    let schema_path = default_schema_by_init(name);
    assert_eq!(schema_path, expected_schema_name);
}

#[test]
fn schema_path_stays_in_the_directory() {
    assert_eq!(
        default_schema_by_init("etc/app/config.toml"),
        "etc/app/config-schema.json"
    );
    assert_eq!(default_schema_by_init("plain"), "plain-schema.json");
    assert_eq!(default_schema_by_init("a.b.c.toml"), "a.b.c-schema.json");
}

#[test]
fn schema_path_ignores_trailing_separators() {
    assert_eq!(
        default_schema_by_init("etc/app/config.toml/"),
        "etc/app/config-schema.json"
    );
    assert_eq!(default_schema_by_init("config.toml//"), "config-schema.json");
}

#[test]
fn enum_item_selection() {
    let mut item = EnumItem {
        variants: vec!["debug".to_string(), "release".to_string()],
        value: Some(1),
        default: Some(0),
    };
    assert_eq!(item.value_str(), Some("release"));
    item.value = None;
    assert_eq!(item.value_str(), None);
    item.value = Some(5);
    assert_eq!(item.value_str(), None);
}

#[test]
fn build_dir_defaults_under_manifest() {
    let mut paths = PathConfig::default();
    paths.manifest = "/work/project".to_string();
    assert_eq!(paths.build_dir(), "/work/project/target");
    assert_eq!(paths.bin_dir(), None);
    paths.config = OutputConfig {
        build_dir: Some("/tmp/out".to_string()),
        bin_dir: Some("/tmp/bin".to_string()),
    };
    assert_eq!(paths.build_dir(), "/tmp/out");
    assert_eq!(paths.bin_dir(), Some("/tmp/bin".to_string()));
}
