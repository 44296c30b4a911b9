use rolldown_core::manifest::{
    add_asset, is_non_js_file, sorted_manifest, try_add_asset, ManifestChunk, ManifestPlugin, OutputAsset,
};

fn asset(filename: &str, names: &[&str], originals: &[&str]) -> OutputAsset {
    OutputAsset {
        filename: filename.to_string(),
        names: names.iter().map(|s| s.to_string()).collect(),
        original_file_names: originals.iter().map(|s| s.to_string()).collect(),
    }
}

fn js_chunk(file: &str, src: &str) -> ManifestChunk {
    ManifestChunk { file: file.to_string(), src: Some(src.to_string()), is_entry: true }
}

fn keys(m: &[(String, ManifestChunk)]) -> Vec<String> {
    let mut k: Vec<String> = m.iter().map(|(k, _)| k.clone()).collect();
    k.sort();
    k
}

fn get<'a>(m: &'a [(String, ManifestChunk)], key: &str) -> &'a ManifestChunk {
    &m.iter().find(|(k, _)| k == key).unwrap().1
}

#[test]
fn plugin_name() {
    let p = ManifestPlugin { root: "/app".to_string(), out_path: "out.json".to_string() };
    assert_eq!(p.name(), "builtin:manifest");
}

#[test]
fn asset_is_keyed_by_its_original_file_names() {
    let mut m = vec![];
    add_asset(&mut m, &asset("assets/logo-123.png", &["logo.png"], &["src/logo.png", "public/logo.png"]));
    assert_eq!(keys(&m), vec!["public/logo.png", "src/logo.png"]);
    let e = get(&m, "src/logo.png");
    assert_eq!(e.file, "assets/logo-123.png");
    assert_eq!(e.src.as_deref(), Some("src/logo.png"));
    assert!(!e.is_entry);
    assert_eq!(get(&m, "public/logo.png").src.as_deref(), Some("src/logo.png"));
}

#[test]
fn asset_without_original_names_is_keyed_by_its_file_name() {
    let mut m = vec![];
    add_asset(&mut m, &asset("assets/style-abc.css", &["style.css"], &[]));
    assert_eq!(keys(&m), vec!["_style-abc.css"]);
    assert_eq!(get(&m, "_style-abc.css").src.as_deref(), Some("_style-abc.css"));
}

#[test]
fn asset_without_names_is_left_out() {
    let mut m = vec![];
    add_asset(&mut m, &asset("assets/x.png", &[], &["src/x.png"]));
    assert!(m.is_empty());
}

#[test]
fn javascript_chunks_keep_their_keys() {
    let mut m = vec![
        ("src/main.ts".to_string(), js_chunk("assets/main-1.js", "src/main.ts")),
        ("src/worker.ts".to_string(), js_chunk("assets/worker-1.mjs", "src/worker.ts")),
        ("src/style.css".to_string(), ManifestChunk { file: "assets/old.css".to_string(), src: None, is_entry: false }),
    ];
    assert!(!is_non_js_file("src/main.ts", &m));
    assert!(!is_non_js_file("src/worker.ts", &m));
    assert!(is_non_js_file("src/style.css", &m));
    assert!(is_non_js_file("src/other.ts", &m));
    add_asset(&mut m, &asset("assets/main-2.css", &["main.css"], &["src/main.ts", "src/style.css", "src/worker.ts"]));
    assert_eq!(get(&m, "src/main.ts").file, "assets/main-1.js");
    assert_eq!(get(&m, "src/worker.ts").file, "assets/worker-1.mjs");
    assert_eq!(get(&m, "src/style.css").file, "assets/main-2.css");
    assert_eq!(m.len(), 3);
}

#[test]
fn assets_that_cannot_be_keyed_are_reported() {
    let mut m = vec![];
    assert!(!try_add_asset(&mut m, &asset("..", &["x"], &[])));
    assert!(m.is_empty());
    assert!(try_add_asset(&mut m, &asset("..", &[], &[])));
    assert!(try_add_asset(&mut m, &asset("a/b.svg", &["b.svg"], &[])));
    assert_eq!(keys(&m), vec!["_b.svg"]);
}

#[test]
fn manifest_is_ordered_by_key() {
    let mut m = vec![];
    add_asset(&mut m, &asset("assets/z-1.png", &["z.png"], &["src/z.png", "b.png", "B.png", "é.png"]));
    m.push(("src/main.ts".to_string(), js_chunk("assets/main-1.js", "src/main.ts")));
    let sorted = sorted_manifest(&m);
    let got: Vec<String> = sorted.iter().map(|(k, _)| k.clone()).collect();
    assert_eq!(got, vec!["B.png", "b.png", "src/main.ts", "src/z.png", "é.png"]);
    assert_eq!(sorted.len(), m.len());
    for (k, v) in &m {
        let e = get(&sorted, k);
        assert_eq!(e.file, v.file);
        assert_eq!(e.src, v.src);
        assert_eq!(e.is_entry, v.is_entry);
    }
    assert!(sorted_manifest(&vec![]).is_empty());
}
