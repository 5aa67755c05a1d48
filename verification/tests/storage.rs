use darshjdb_core::json::json_eq_exec;
use darshjdb_core::storage::engine::{engine_plan, EngineError, EngineKind};
use darshjdb_core::storage::memory::MemoryBackend;
use darshjdb_core::storage::postgres::prefix_upper_bound;
use darshjdb_core::storage::transforms::{
    cache_clear, cache_get, cache_set, ByteCache, Op, OutputFormat, TransformError, TransformOps,
};
use darshjdb_core::storage::{
    check_upload_size, listing_page, validate_content_type, ImageFit, ImageFormat, ImageTransform,
    LocalFsBackend, StorageEngine, StorageError, UploadAction, MAX_IMAGE_DIMENSION,
};
use image::{DynamicImage, ImageBuffer, ImageEncoder, Rgba};

// ── Path resolution ─────────────────────────────────────────────────

#[test]
fn path_traversal_parent_dir() {
    let backend = LocalFsBackend::new("/tmp/darshjdb-test-pt");
    assert!(backend.resolve_path("../../../etc/passwd").is_err());
}

#[test]
fn path_traversal_nested_parent() {
    let backend = LocalFsBackend::new("/tmp/darshjdb-test-pt2");
    assert!(backend
        .resolve_path("a/b/../../../../../../etc/shadow")
        .is_err());
}

#[test]
fn path_traversal_absolute_path() {
    let backend = LocalFsBackend::new("/tmp/darshjdb-test-pt3");
    assert!(backend.resolve_path("/etc/passwd").is_err());
    assert!(backend.resolve_path("/absolute/path").is_err());
}

#[test]
fn path_traversal_null_byte() {
    let backend = LocalFsBackend::new("/tmp/darshjdb-test-pt4");
    assert!(backend.resolve_path("file.txt\0.jpg").is_err());
    assert!(backend.resolve_path("\0").is_err());
}

#[test]
fn path_traversal_empty_path() {
    let backend = LocalFsBackend::new("/tmp/darshjdb-test-pt5");
    assert!(backend.resolve_path("").is_err());
}

#[test]
fn path_traversal_safe_paths_accepted() {
    let backend = LocalFsBackend::new("/tmp/darshjdb-test-pt6");
    assert!(backend.resolve_path("safe/path/file.txt").is_ok());
    assert!(backend.resolve_path("uploads/image.png").is_ok());
    assert!(backend.resolve_path("a.txt").is_ok());
}

#[test]
fn resolve_path_joins_under_root() {
    let backend = LocalFsBackend::new("/srv/files");
    assert_eq!(
        backend.resolve_path("uploads/a.png").unwrap(),
        "/srv/files/uploads/a.png"
    );
    assert!(matches!(
        backend.resolve_path("x/../y"),
        Err(StorageError::InvalidPath(_))
    ));
}

// ── Upload checks ───────────────────────────────────────────────────

#[test]
fn upload_size_and_content_type_checks() {
    assert!(check_upload_size(10, 100).is_ok());
    assert!(check_upload_size(100, 100).is_ok());
    assert!(check_upload_size(101, 100).is_err());
    assert!(validate_content_type("image/png").is_ok());
    assert!(validate_content_type("").is_err());
}

// ── Signed URLs ─────────────────────────────────────────────────────

fn engine() -> StorageEngine {
    StorageEngine::new(b"test-secret-key".to_vec())
}

fn query_params(url: &str) -> (i64, String) {
    let query = url.split_once('?').unwrap().1;
    let mut expires = None;
    let mut sig = None;
    for pair in query.split('&') {
        let (k, v) = pair.split_once('=').unwrap();
        match k {
            "expires" => expires = Some(v.parse::<i64>().unwrap()),
            "sig" => sig = Some(v.to_string()),
            _ => {}
        }
    }
    (expires.unwrap(), sig.unwrap())
}

#[test]
fn signed_url_roundtrip() {
    let engine = engine();
    let signed = engine
        .signed_url("uploads/test.png", "https://example.com/api/storage")
        .expect("sign");
    let (expires, sig) = query_params(&signed.url);
    assert!(engine
        .verify_signed_url("uploads/test.png", expires, &sig)
        .is_ok());
}

#[test]
fn signed_url_wrong_path_fails() {
    let engine = engine();
    let signed = engine
        .signed_url("uploads/test.png", "https://example.com")
        .expect("sign");
    let (expires, sig) = query_params(&signed.url);
    assert!(engine
        .verify_signed_url("uploads/WRONG.png", expires, &sig)
        .is_err());
}

#[test]
fn signed_url_expired_fails() {
    let engine = engine();
    let past = 1_000_000 - 3600;
    assert!(engine
        .verify_signed_url_at("uploads/test.png", past, "bogus-sig", 1_000_000)
        .is_err());
}

#[test]
fn signed_url_tampered_signature_fails() {
    let engine = engine();
    let signed = engine
        .signed_url("uploads/test.png", "https://example.com")
        .expect("sign");
    let (expires, _) = query_params(&signed.url);
    assert!(engine
        .verify_signed_url("uploads/test.png", expires, "TAMPERED_SIG")
        .is_err());
}

#[test]
fn signed_url_at_shape_and_expiry() {
    let engine = engine();
    let signed = engine
        .signed_url_at("a/b.png", "https://h", 1_000)
        .expect("sign");
    assert_eq!(signed.expires_at, 1_000 + 3600);
    assert_eq!(signed.expires_in, 3600);
    assert!(signed.url.starts_with("https://h/a/b.png?expires=4600&sig="));
    let (expires, sig) = query_params(&signed.url);
    assert!(engine.verify_signed_url_at("a/b.png", expires, &sig, 4_600).is_ok());
    assert!(engine.verify_signed_url_at("a/b.png", expires, &sig, 4_601).is_err());
}

// ── Resumable uploads ───────────────────────────────────────────────

#[test]
fn resumable_upload_create_and_status() {
    let mut engine = engine();
    let id = engine.create_resumable_upload("file.bin", "application/octet-stream", Some(100));

    let status = engine.resumable_upload_status(id).expect("status");
    assert_eq!(status.bytes_received, 0);
    assert_eq!(status.next_offset, 0);
    assert_eq!(status.path, "file.bin");
    assert_eq!(status.content_type, "application/octet-stream");
    assert_eq!(status.total_size, Some(100));
}

#[test]
fn resumable_upload_cancel() {
    let mut engine = engine();
    let id = engine.create_resumable_upload("file.bin", "application/octet-stream", None);
    assert!(engine.cancel_resumable_upload(id));
    assert!(engine.resumable_upload_status(id).is_none());
    assert!(!engine.cancel_resumable_upload(id));
}

#[test]
fn resumable_upload_sequential_chunks_and_wrong_offset() {
    let mut engine = engine();
    let id = engine.create_resumable_upload("file.bin", "application/octet-stream", Some(100));
    assert_eq!(engine.append_chunk_at(id, 0, 50, "x").unwrap(), 50);
    assert_eq!(engine.append_chunk_at(id, 50, 50, "x").unwrap(), 100);
    assert_eq!(engine.resumable_upload_status(id).unwrap().bytes_received, 100);
    assert!(matches!(
        engine.append_chunk_at(id, 0, 10, "x"),
        Err(StorageError::InvalidOffset {
            expected: 100,
            received: 0
        })
    ));
    assert!(engine.append_chunk_at(id.wrapping_add(1), 0, 10, "x").is_err());
}

// ── Image transform query parameters ────────────────────────────────

#[test]
fn image_transform_full_parsing() {
    let t = ImageTransform::from_query("w=200,h=150,fit=cover,format=webp,q=80");
    assert_eq!(t.width, Some(200));
    assert_eq!(t.height, Some(150));
    assert!(matches!(t.fit, Some(ImageFit::Cover)));
    assert!(matches!(t.format, Some(ImageFormat::Webp)));
    assert_eq!(t.quality, Some(80));
}

#[test]
fn image_transform_empty_query() {
    let t = ImageTransform::from_query("");
    assert!(t.is_empty());
}

#[test]
fn image_transform_quality_clamped() {
    let t = ImageTransform::from_query("q=0");
    assert_eq!(t.quality, Some(1));

    let t = ImageTransform::from_query("q=255");
    assert_eq!(t.quality, Some(100));

    let t = ImageTransform::from_query("q=50");
    assert_eq!(t.quality, Some(50));
}

#[test]
fn image_transform_dimension_clamped() {
    let t = ImageTransform::from_query("w=999999,h=999999");
    assert_eq!(t.width, Some(MAX_IMAGE_DIMENSION));
    assert_eq!(t.height, Some(MAX_IMAGE_DIMENSION));
}

#[test]
fn image_transform_zero_dimension_rejected() {
    let t = ImageTransform::from_query("w=0,h=0");
    assert!(t.width.is_none());
    assert!(t.height.is_none());
}

#[test]
fn image_transform_all_fits() {
    for (val, expected) in [
        ("contain", ImageFit::Contain),
        ("cover", ImageFit::Cover),
        ("fill", ImageFit::Fill),
        ("inside", ImageFit::Inside),
    ] {
        let t = ImageTransform::from_query(&format!("fit={val}"));
        assert!(
            matches!(t.fit, Some(f) if std::mem::discriminant(&f) == std::mem::discriminant(&expected)),
            "fit={val} should parse"
        );
    }
}

#[test]
fn image_transform_all_formats() {
    for val in ["jpeg", "jpg", "png", "webp", "avif"] {
        let t = ImageTransform::from_query(&format!("format={val}"));
        assert!(t.format.is_some(), "format={val} should parse");
    }
}

#[test]
fn image_transform_unknown_keys_ignored() {
    let t = ImageTransform::from_query("w=100,unknown=foo,bar=baz");
    assert_eq!(t.width, Some(100));
    assert!(t.fit.is_none());
}

#[test]
fn storage_error_messages() {
    assert_eq!(
        StorageError::InvalidOffset {
            expected: 50,
            received: 0
        }
        .to_string(),
        "invalid upload offset: expected 50, got 0"
    );
    assert_eq!(StorageError::SignatureExpired.to_string(), "signed URL has expired");
}

// ── Prefix scans ────────────────────────────────────────────────────

#[test]
fn test_prefix_upper_bound() {
    assert_eq!(prefix_upper_bound("user:"), "user;");
    assert_eq!(prefix_upper_bound("a"), "b");
    assert_eq!(prefix_upper_bound("abc"), "abd");
}

// ── Transform pipelines ─────────────────────────────────────────────

fn sample_image(w: u32, h: u32) -> DynamicImage {
    let buf: ImageBuffer<Rgba<u8>, Vec<u8>> =
        ImageBuffer::from_fn(w, h, |x, y| Rgba([(x % 255) as u8, (y % 255) as u8, 128, 255]));
    DynamicImage::ImageRgba8(buf)
}

#[test]
fn parses_resize() {
    let ops = TransformOps::parse("resize:800x600").expect("parse");
    assert_eq!(ops.ops.len(), 1);
    assert!(matches!(ops.ops[0], Op::Resize { w: 800, h: 600 }));
}

#[test]
fn parses_full_pipeline() {
    let ops = TransformOps::parse("resize:400x400,crop:0,0,200,200,format:webp,quality:80")
        .expect("parse");
    assert_eq!(ops.ops.len(), 4);
    assert!(matches!(ops.ops[0], Op::Resize { w: 400, h: 400 }));
    assert!(matches!(
        ops.ops[1],
        Op::Crop {
            x: 0,
            y: 0,
            w: 200,
            h: 200
        }
    ));
    assert!(matches!(&ops.ops[2], Op::Format(f) if f == "webp"));
    assert!(matches!(ops.ops[3], Op::Quality(80)));
    assert_eq!(ops.output_mime(), "image/webp");
}

#[test]
fn parse_rejects_bad_input() {
    assert!(TransformOps::parse("").is_err());
    assert!(TransformOps::parse("   ").is_err());
    assert!(TransformOps::parse("resize:notxnum").is_err());
    assert!(TransformOps::parse("resize:800").is_err());
    assert!(TransformOps::parse("crop:1,2,3").is_err());
    assert!(TransformOps::parse("format:tiff").is_err());
    assert!(TransformOps::parse("quality:200").is_err());
    assert!(TransformOps::parse("unknown:foo").is_err());
    assert!(TransformOps::parse("resize").is_err());
}

#[test]
fn last_format_and_quality_win() {
    let ops = TransformOps::parse("format:png,quality:10,format:jpg,quality:70").unwrap();
    assert_eq!(ops.last_format(), Some(OutputFormat::Jpeg));
    assert_eq!(ops.last_quality(), Some(70));
    assert_eq!(ops.output_mime(), "image/jpeg");
    assert_eq!(OutputFormat::parse("avif"), Some(OutputFormat::Avif));
    assert_eq!(OutputFormat::parse("tiff"), None);
}

#[test]
fn applies_resize_100x100() {
    let img = sample_image(400, 300);
    let ops = TransformOps::parse("resize:100x100").unwrap();
    let out = ops.apply(img).unwrap();
    assert_eq!(out.width(), 100);
    assert_eq!(out.height(), 100);
}

#[test]
fn crop_out_of_bounds_errors() {
    let img = sample_image(100, 100);
    let ops = TransformOps::parse("crop:50,50,200,200").unwrap();
    assert!(matches!(ops.apply(img), Err(TransformError::CropOutOfBounds)));
}

#[test]
fn crop_within_bounds_keeps_region_size() {
    let img = sample_image(100, 80);
    let ops = TransformOps::parse("crop:10,10,50,40").unwrap();
    let out = ops.apply(img).unwrap();
    assert_eq!((out.width(), out.height()), (50, 40));
}

#[test]
fn format_conversion_jpeg_to_webp() {
    let img = sample_image(64, 64);
    let mut jpeg_bytes: Vec<u8> = Vec::new();
    {
        let mut cursor = std::io::Cursor::new(&mut jpeg_bytes);
        let rgb = img.to_rgb8();
        let encoder = image::codecs::jpeg::JpegEncoder::new_with_quality(&mut cursor, 85);
        encoder
            .write_image(
                rgb.as_raw(),
                rgb.width(),
                rgb.height(),
                image::ExtendedColorType::Rgb8,
            )
            .unwrap();
    }
    let decoded = image::load_from_memory(&jpeg_bytes).unwrap();
    let ops = TransformOps::parse("format:webp").unwrap();
    let transformed = ops.apply(decoded).unwrap();
    let out = ops.encode(transformed).unwrap();
    assert!(!out.is_empty(), "webp output should have bytes");
    assert_eq!(&out[0..4], b"RIFF");
    assert_eq!(&out[8..12], b"WEBP");
    assert_eq!(ops.output_mime(), "image/webp");
}

#[test]
fn quality_50_jpeg_smaller_than_quality_95() {
    let img = sample_image(256, 256);
    let low = TransformOps::parse("format:jpeg,quality:50").unwrap();
    let high = TransformOps::parse("format:jpeg,quality:95").unwrap();
    let low_bytes = low.encode(low.apply(img.clone()).unwrap()).unwrap();
    let high_bytes = high.encode(high.apply(img).unwrap()).unwrap();
    assert!(
        low_bytes.len() < high_bytes.len(),
        "q=50 ({}) should be smaller than q=95 ({})",
        low_bytes.len(),
        high_bytes.len()
    );
    assert_eq!(low.output_mime(), "image/jpeg");
}

#[test]
fn png_encode_roundtrip() {
    let img = sample_image(32, 32);
    let ops = TransformOps::parse("format:png").unwrap();
    let out = ops.encode(ops.apply(img).unwrap()).unwrap();
    let decoded = image::load_from_memory(&out).unwrap();
    assert_eq!(decoded.width(), 32);
    assert_eq!(decoded.height(), 32);
}

// ── Transform cache ─────────────────────────────────────────────────

#[test]
fn byte_cache_set_and_get() {
    let mut cache = ByteCache::new();
    cache_clear(&mut cache);
    let key = "img:foo:bar".to_string();
    cache_set(&mut cache, key.clone(), vec![1, 2, 3], "image/png", 60_000, 0);
    let hit = cache_get(&mut cache, &key, 10).expect("hit");
    assert_eq!(hit.0, vec![1, 2, 3]);
    assert_eq!(hit.1, "image/png");
    assert!(cache_get(&mut cache, "img:missing:x", 10).is_none());
}

#[test]
fn byte_cache_expires() {
    let mut cache = ByteCache::new();
    cache_clear(&mut cache);
    let key = "img:ttl:x".to_string();
    cache_set(&mut cache, key.clone(), vec![9], "image/png", 1, 0);
    assert!(cache_get(&mut cache, &key, 5).is_none());
}

#[test]
fn byte_cache_set_replaces_entry() {
    let mut cache = ByteCache::new();
    cache.set("k".to_string(), vec![1], "image/png", 100, 0);
    cache.set("k".to_string(), vec![2, 2], "image/webp", 100, 0);
    assert_eq!(cache.entries.len(), 1);
    let hit = cache.get("k", 1).unwrap();
    assert_eq!(hit, (vec![2, 2], "image/webp".to_string()));
    cache.clear();
    assert!(cache.get("k", 1).is_none());
}

// ── In-memory backend ───────────────────────────────────────────────

fn jtext(s: &str) -> darshjdb_core::json::JsonValue {
    darshjdb_core::json::JsonValue::String(s.to_string())
}

fn jnum(n: u64) -> darshjdb_core::json::JsonValue {
    darshjdb_core::json::JsonValue::Number(darshjdb_core::json::JsonNumber::PosInt(n))
}

#[test]
fn test_get_set_delete() {
    let mut backend = MemoryBackend::new();
    assert!(backend.get("users", "1").is_none());
    backend.set("users", "1", jtext("Darsh"));
    assert!(json_eq_exec(&backend.get("users", "1").unwrap(), &jtext("Darsh")));
    assert!(backend.delete("users", "1"));
    assert!(backend.get("users", "1").is_none());
    assert!(!backend.delete("users", "1"));
}

#[test]
fn test_scan_with_prefix() {
    let mut backend = MemoryBackend::new();
    backend.set("kv", "user:1", jtext("a"));
    backend.set("kv", "user:2", jtext("b"));
    backend.set("kv", "order:1", jtext("c"));
    let users = backend.scan("kv", Some("user:"), 10);
    assert_eq!(users.len(), 2);
    assert!(users.iter().all(|(k, _)| k.starts_with("user:")));
    let all = backend.scan("kv", None, 10);
    let keys: Vec<&str> = all.iter().map(|(k, _)| k.as_str()).collect();
    assert_eq!(keys, vec!["order:1", "user:1", "user:2"]);
}

#[test]
fn test_scan_limit() {
    let mut backend = MemoryBackend::new();
    for i in 0..20u64 {
        backend.set("items", &format!("item:{i:03}"), jnum(i));
    }
    let limited = backend.scan("items", None, 5);
    assert_eq!(limited.len(), 5);
    assert_eq!(limited[4].0, "item:004");
    assert!(backend.scan("missing", None, 5).is_empty());
}

#[test]
fn test_set_replaces_and_counts() {
    let mut backend = MemoryBackend::new();
    backend.set("a", "x", jnum(1));
    backend.set("a", "x", jnum(2));
    backend.set("b", "y", jnum(3));
    assert_eq!(backend.table_count(), 2);
    assert_eq!(backend.record_count(), 2);
    assert!(darshjdb_core::json::json_eq_exec(&backend.get("a", "x").unwrap(), &jnum(2)));
}

#[test]
fn test_query_select_all() {
    let mut backend = MemoryBackend::new();
    backend.set("docs", "b", jnum(2));
    backend.set("docs", "a", jnum(1));
    let results = backend.query("SELECT * FROM docs").unwrap();
    assert_eq!(results.len(), 2);
    assert!(darshjdb_core::json::json_eq_exec(&results[0], &jnum(1)));
    assert!(backend.query("select * from nothing;").unwrap().is_empty());
}

#[test]
fn test_query_select_by_id() {
    let mut backend = MemoryBackend::new();
    backend.set("docs", "myid", jnum(42));
    let results = backend.query("SELECT * FROM docs WHERE id = 'myid'").unwrap();
    assert_eq!(results.len(), 1);
    assert!(darshjdb_core::json::json_eq_exec(&results[0], &jnum(42)));
    assert!(backend
        .query("SELECT * FROM docs WHERE id = 'other';")
        .unwrap()
        .is_empty());
}

#[test]
fn test_query_rejects_non_select() {
    let backend = MemoryBackend::new();
    assert_eq!(
        backend.query("DELETE FROM docs").unwrap_err(),
        "in-memory backend only supports SELECT queries"
    );
    assert_eq!(
        backend.query("SELECT *").unwrap_err(),
        "could not parse table name from query"
    );
}

#[test]
fn test_backend_name() {
    let backend = MemoryBackend::new();
    assert_eq!(backend.backend_name(), "memory");
}

// ── Engine selection ────────────────────────────────────────────────

#[test]
fn test_engine_kind_parsing() {
    assert_eq!(EngineKind::from_env_str("memory"), EngineKind::Memory);
    assert_eq!(EngineKind::from_env_str("mem"), EngineKind::Memory);
    assert_eq!(EngineKind::from_env_str("in-memory"), EngineKind::Memory);
    assert_eq!(EngineKind::from_env_str("postgres"), EngineKind::Postgres);
    assert_eq!(EngineKind::from_env_str("pg"), EngineKind::Postgres);
    assert_eq!(EngineKind::from_env_str("postgresql"), EngineKind::Postgres);
    assert_eq!(EngineKind::from_env_str("file"), EngineKind::File);
    assert_eq!(EngineKind::from_env_str("rocksdb"), EngineKind::File);
    assert_eq!(EngineKind::from_env_str("banana"), EngineKind::Postgres);
    assert!(!EngineKind::is_known_name("banana"));
    assert!(EngineKind::is_known_name(" PG "));
}

#[test]
fn test_postgres_engine_requires_pool() {
    assert_eq!(engine_plan(EngineKind::Postgres, false), Err(EngineError::MissingPool));
    assert_eq!(engine_plan(EngineKind::Postgres, true), Ok(EngineKind::Postgres));
    assert_eq!(engine_plan(EngineKind::Memory, false), Ok(EngineKind::Memory));
}

#[test]
fn test_file_engine_not_implemented() {
    assert_eq!(engine_plan(EngineKind::File, true), Err(EngineError::FileUnsupported));
}

#[test]
fn signed_url_from_the_clock_is_valid_now() {
    let engine = engine();
    let signed = engine.signed_url("a/b.png", "https://h").expect("sign");
    assert_eq!(signed.expires_in, 3600);
    let (expires, _sig) = query_params(&signed.url);
    assert_eq!(expires, signed.expires_at);
    let again = engine.signed_url_at("a/b.png", "https://h", expires - 3600).unwrap();
    assert_eq!(again.url, signed.url);
}

#[test]
fn verify_signed_url_far_future_and_far_past() {
    let engine = engine();
    let far = engine.signed_url_at("a/b.png", "https://h", 8_210_266_876_799).unwrap();
    let (expires, sig) = query_params(&far.url);
    assert!(engine.verify_signed_url("a/b.png", expires, &sig).is_ok());
    assert!(matches!(
        engine.verify_signed_url("a/c.png", expires, &sig),
        Err(StorageError::InvalidSignature)
    ));
    assert!(matches!(
        engine.verify_signed_url("a/b.png", -8_334_601_228_801, &sig),
        Err(StorageError::SignatureExpired)
    ));
}

#[test]
fn signed_url_expiry_past_i64_is_internal_error() {
    let mut engine = engine();
    engine.set_signed_url_ttl(u64::MAX);
    assert!(matches!(
        engine.signed_url("a/b.png", "https://h"),
        Err(StorageError::Internal(_))
    ));
}

#[test]
fn apply_tracks_sides_through_resize_and_crop() {
    let img = sample_image(400, 300);
    let ops = TransformOps::parse("resize:100x80,crop:10,20,50,60,format:png").unwrap();
    let out = ops.apply(img).unwrap();
    assert_eq!((out.width(), out.height()), (50, 60));
    let img = sample_image(400, 300);
    let ops = TransformOps::parse("resize:100x80,crop:10,20,50,61").unwrap();
    assert!(matches!(ops.apply(img), Err(TransformError::CropOutOfBounds)));
}

#[test]
fn encode_defaults_to_png() {
    let img = sample_image(8, 8);
    let ops = TransformOps::parse("quality:30").unwrap();
    let out = ops.encode(ops.apply(img).unwrap()).unwrap();
    assert_eq!(&out[1..4], b"PNG");
}

#[test]
fn from_query_clamps_numbers_beyond_the_integer_types() {
    assert_eq!(ImageTransform::from_query("q=300").quality, Some(100));
    assert_eq!(ImageTransform::from_query("q=99999999999999999999999").quality, Some(100));
    assert_eq!(ImageTransform::from_query("q=+7").quality, Some(7));
    assert_eq!(ImageTransform::from_query("w=99999999999").width, Some(MAX_IMAGE_DIMENSION));
    assert_eq!(ImageTransform::from_query("h=16385").height, Some(MAX_IMAGE_DIMENSION));
    assert_eq!(ImageTransform::from_query("w=000").width, None);
    assert_eq!(ImageTransform::from_query("w=12px").width, None);
    assert_eq!(ImageTransform::from_query("q=-1").quality, None);
}

#[test]
fn cache_returns_what_was_stored() {
    let mut cache = ByteCache::new();
    cache_set(&mut cache, "k".to_string(), vec![1, 2, 3], "image/png", 1000, 50);
    cache_set(&mut cache, "other".to_string(), vec![9], "image/webp", 1000, 50);
    let (bytes, mime) = cache_get(&mut cache, "k", 500).unwrap();
    assert_eq!(bytes, vec![1, 2, 3]);
    assert_eq!(mime, "image/png");
    cache_set(&mut cache, "k".to_string(), vec![4], "image/jpeg", 10, 600);
    let (bytes, mime) = cache_get(&mut cache, "k", 605).unwrap();
    assert_eq!(bytes, vec![4]);
    assert_eq!(mime, "image/jpeg");
    assert!(cache_get(&mut cache, "k", 610).is_none());
    assert!(cache_get(&mut cache, "never", 0).is_none());
    assert_eq!(cache_get(&mut cache, "other", 700).unwrap().0, vec![9]);
}

#[test]
fn listing_page_skips_sidecars_and_pages_after_cursor() {
    let files: Vec<(String, String)> = vec![
        ("b/two.png".into(), "two.png".into()),
        ("a.txt".into(), "a.txt".into()),
        ("a.txt.meta.json".into(), "a.txt.meta.json".into()),
        ("c.bin".into(), "c.bin".into()),
        ("b/one.png".into(), "one.png".into()),
    ];
    assert_eq!(
        listing_page(&files, None, 10),
        vec!["a.txt".to_string(), "b/one.png".into(), "b/two.png".into(), "c.bin".into()]
    );
    assert_eq!(listing_page(&files, None, 2), vec!["a.txt".to_string(), "b/one.png".into()]);
    assert_eq!(
        listing_page(&files, Some("b/one.png"), 10),
        vec!["b/two.png".to_string(), "c.bin".into()]
    );
    assert!(listing_page(&files, Some("z"), 10).is_empty());
}

#[test]
fn upload_steps_run_hooks_in_order_then_persist() {
    let mut engine = engine();
    let step = |e: &StorageEngine, passed: usize, outcome: Option<Result<(), StorageError>>| {
        e.upload_step(10, "image/png", passed, outcome, 2)
    };
    assert!(matches!(step(&engine, 0, None), UploadAction::RunHook(0)));
    assert!(matches!(step(&engine, 0, Some(Ok(()))), UploadAction::RunHook(1)));
    assert!(matches!(step(&engine, 1, Some(Ok(()))), UploadAction::Persist));
    match step(&engine, 1, Some(Err(StorageError::Rejected("virus".into())))) {
        UploadAction::Reject(StorageError::Rejected(m)) => assert_eq!(m, "virus"),
        other => panic!("{other:?}"),
    }
    assert!(matches!(engine.upload_step(10, "image/png", 0, None, 0), UploadAction::Persist));
    match engine.upload_step(10, "application/x-sh", 0, None, 2) {
        UploadAction::Reject(StorageError::Rejected(m)) => {
            assert_eq!(m, "content-type 'application/x-sh' is not allowed")
        }
        other => panic!("{other:?}"),
    }
    engine.set_max_upload_size(5);
    match engine.upload_step(10, "image/png", 0, None, 2) {
        UploadAction::Reject(StorageError::Rejected(m)) => {
            assert_eq!(m, "upload size 10 exceeds maximum allowed size 5")
        }
        other => panic!("{other:?}"),
    }
}

#[test]
fn cache_entry_survives_other_keys() {
    let mut cache = ByteCache::new();
    cache_set(&mut cache, "k".to_string(), vec![7], "image/png", 100, 0);
    cache_set(&mut cache, "old".to_string(), vec![1], "image/png", 1, 0);
    cache_set(&mut cache, "x".to_string(), vec![2], "image/webp", 100, 5);
    assert!(cache_get(&mut cache, "old", 50).is_none());
    assert!(cache_get(&mut cache, "x", 50).is_some());
    let (b, m) = cache_get(&mut cache, "k", 99).unwrap();
    assert_eq!((b, m.as_str()), (vec![7], "image/png"));
    cache_clear(&mut cache);
    assert!(cache_get(&mut cache, "k", 99).is_none());
}
