use rostra::assets::{
    accepts_brotli, asset_ext, asset_key, calculate_etag, content_type, etag_from_hash, etag_matches,
    is_compressible, plan_response, value_offers_brotli, AssetResponse, StaticAsset, StaticAssets,
};

#[test]
fn etag_is_quoted_decimal_hash() {
    assert_eq!(etag_from_hash(0), "\"0\"");
    assert_eq!(etag_from_hash(18446744073709551615), "\"18446744073709551615\"");
    let e = calculate_etag(b"hello");
    assert!(e.starts_with('"') && e.ends_with('"') && e.len() >= 3);
    assert!(e[1..e.len() - 1].chars().all(|c| c.is_ascii_digit()));
    assert_eq!(e, calculate_etag(b"hello"));
    assert_ne!(e, calculate_etag(b"hello!"));
}

#[test]
fn etag_must_match_exactly() {
    assert!(etag_matches(&Some(b"\"12\"".to_vec()), "\"12\""));
    assert!(!etag_matches(&Some(b"\"13\"".to_vec()), "\"12\""));
    assert!(!etag_matches(&Some(b"12".to_vec()), "\"12\""));
    assert!(!etag_matches(&None, "\"12\""));
}

#[test]
fn extensions_and_content_types() {
    assert_eq!(asset_ext("style.min.css"), "css");
    assert_eq!(asset_ext("LICENSE"), "LICENSE");
    assert_eq!(asset_ext("dir.d/file."), "");
    assert_eq!(content_type("app.js"), Some("application/javascript"));
    assert_eq!(content_type("a.css"), Some("text/css"));
    assert_eq!(content_type("logo.svg"), Some("image/svg+xml"));
    assert_eq!(content_type("favicon.ico"), Some("image/x-icon"));
    assert_eq!(content_type("data.json"), None);
    assert!(is_compressible("json"));
    assert!(!is_compressible("ico"));
}

#[test]
fn brotli_is_accepted_only_as_a_whole_entry() {
    assert!(value_offers_brotli("gzip, br"));
    assert!(value_offers_brotli(" br "));
    assert!(!value_offers_brotli("brotli"));
    assert!(!value_offers_brotli("gzip,deflate"));
    assert!(accepts_brotli(&vec![None, Some("gzip".to_string()), Some("deflate, br".to_string())]));
    assert!(!accepts_brotli(&vec![None, Some("gzip".to_string())]));
    assert!(!accepts_brotli(&Vec::new()));
}

#[test]
fn request_paths_lose_leading_slashes() {
    assert_eq!(asset_key("//assets/app.js"), "assets/app.js");
    assert_eq!(asset_key("x"), "x");
}

#[test]
fn compressed_assets_round_trip_and_are_served_encoded() {
    let css = b"body { color: red; } body { color: red; }".to_vec();
    let a = StaticAsset::new("/srv/style.css".to_string(), "css", css.clone());
    assert!(a.compressed.is_some());
    assert_eq!(a.raw(), css);
    assert_eq!(a.content_type(), Some("text/css"));
    let etag = a.etag.clone();

    let png = vec![1u8, 2, 3];
    let b = StaticAsset::new("/srv/logo.png".to_string(), "png", png.clone());
    assert!(b.compressed.is_none());
    assert_eq!(b.raw(), png);

    let mut assets = StaticAssets::new();
    assets.insert("style.css".to_string(), a);
    assets.insert("logo.png".to_string(), b);
    assert!(assets.get("style.css").is_some());
    assert!(assets.get("missing").is_none());

    let br = vec![Some("br".to_string())];
    assert!(matches!(plan_response(&assets, "/missing", &None, &br), AssetResponse::NotFound));
    match plan_response(&assets, "/style.css", &None, &br) {
        AssetResponse::Content { content_type, brotli } => {
            assert_eq!(content_type, "text/css");
            assert!(brotli);
        }
        _ => panic!("expected content"),
    }
    match plan_response(&assets, "/style.css", &Some(etag.into_bytes()), &br) {
        AssetResponse::NotModified { content_type } => assert_eq!(content_type, "text/css"),
        _ => panic!("expected not modified"),
    }
    match plan_response(&assets, "/logo.png", &None, &br) {
        AssetResponse::Content { content_type, brotli } => {
            assert_eq!(content_type, "application/octet-stream");
            assert!(!brotli);
        }
        _ => panic!("expected content"),
    }
}
