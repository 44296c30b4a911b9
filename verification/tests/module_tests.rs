use rolldown_core::module::{
    DebugStmtInfoForTreeShaking, EcmaModuleAstUsage, EcmaView, EcmaViewMeta, ExportsKind,
    ExternalModule, HmrInfo, ImportKind, ImportRecord, ImportRecordMeta, Interop, LegalComments,
    Module, ModuleDefFormat, ModuleType, NormalModule, NormalizedBundlerOptions, RawImportRecord,
    ResolvedId, SourceMapType, Span, StmtInfo,
};

fn record(target: usize, star: bool) -> ImportRecord {
    ImportRecord {
        module_request: format!("./m{target}"),
        kind: ImportKind::Import,
        resolved_module: target,
        meta: ImportRecordMeta { is_export_star: star, is_top_level: true },
    }
}

fn raw_record(star: bool) -> RawImportRecord {
    RawImportRecord {
        module_request: "./x".to_string(),
        kind: ImportKind::Import,
        span: Span { start: 0, end: 1 },
        meta: ImportRecordMeta { is_export_star: star, is_top_level: true },
    }
}

fn module(idx: usize, id: &str) -> NormalModule {
    NormalModule {
        exec_order: 0,
        idx,
        is_user_defined_entry: false,
        id: id.to_string(),
        stable_id: id.to_string(),
        debug_id: id.to_string(),
        repr_name: format!("repr_{idx}"),
        module_type: ModuleType::Js,
        ecma_view: EcmaView {
            source: "export const a = 1;".to_string(),
            import_records: vec![],
            meta: EcmaViewMeta { included: false, star_export: false },
            stmt_infos: vec![],
            named_exports: vec![],
            exports_kind: ExportsKind::Esm,
            def_format: ModuleDefFormat::Unknown,
            importers: vec![],
            dynamic_importers: vec![],
            imported_ids: vec![],
            dynamically_imported_ids: vec![],
            ast_usage: EcmaModuleAstUsage {
                module_ref: false,
                exports_ref: false,
                es_module_flag: false,
                hmr_self_accept: false,
            },
            hmr_info: HmrInfo { deps: vec![], module_request_to_import_record_idx: vec![] },
        },
        css_view: None,
        asset_view: None,
        originative_resolved_id: ResolvedId {
            id: id.to_string(),
            module_def_format: ModuleDefFormat::Unknown,
            is_external: false,
        },
    }
}

#[test]
fn star_export_ids_follow_record_order() {
    let mut m = module(0, "/a.js");
    m.ecma_view.import_records = vec![record(3, true), record(1, false), record(2, true)];
    m.ecma_view.meta.star_export = true;
    assert!(m.has_star_export());
    assert_eq!(m.star_export_module_ids(), vec![3, 2]);
}

#[test]
fn star_export_ids_empty_without_flag() {
    let mut m = module(0, "/a.js");
    m.ecma_view.import_records = vec![record(3, true)];
    assert!(!m.has_star_export());
    assert_eq!(m.star_export_module_ids(), Vec::<usize>::new());
}

#[test]
fn virtual_ids() {
    assert!(module(0, "\0commonjsHelpers.js").is_virtual());
    assert!(module(0, "rolldown:runtime").is_virtual());
    assert!(!module(0, "/src/rolldown:x.js").is_virtual());
    assert!(!module(0, "rolldown").is_virtual());
    assert!(!module(0, "").is_virtual());
}

#[test]
fn interop_depends_on_importee_exports_kind_and_importer_format() {
    let mut importer = module(0, "/a.mjs");
    let mut importee = module(1, "/b.cjs");
    importee.ecma_view.exports_kind = ExportsKind::CommonJs;
    importer.ecma_view.def_format = ModuleDefFormat::EsmMjs;
    assert_eq!(importer.interop(&importee), Some(Interop::Node));
    importer.ecma_view.def_format = ModuleDefFormat::EsmPackageJson;
    assert_eq!(importer.interop(&importee), Some(Interop::Node));
    importer.ecma_view.def_format = ModuleDefFormat::Unknown;
    assert_eq!(importer.interop(&importee), Some(Interop::Babel));
    importer.ecma_view.def_format = ModuleDefFormat::Cjs;
    assert_eq!(importer.interop(&importee), Some(Interop::Babel));
    importee.ecma_view.exports_kind = ExportsKind::Esm;
    assert_eq!(importer.interop(&importee), None);
    importee.ecma_view.exports_kind = ExportsKind::Unknown;
    assert_eq!(importer.interop(&importee), None);
}

#[test]
fn node_esm_spec_for_static_and_dynamic_imports() {
    let mut m = module(0, "/a.js");
    let cases = [
        (ModuleDefFormat::Unknown, false, false),
        (ModuleDefFormat::Cjs, false, true),
        (ModuleDefFormat::Cts, false, true),
        (ModuleDefFormat::CjsPackageJson, false, true),
        (ModuleDefFormat::EsmMjs, true, true),
        (ModuleDefFormat::EsmMts, true, true),
        (ModuleDefFormat::EsmPackageJson, true, true),
    ];
    for (format, static_import, dynamic_import) in cases {
        m.ecma_view.def_format = format;
        assert_eq!(m.should_consider_node_esm_spec_for_static_import(), static_import);
        assert_eq!(m.should_consider_node_esm_spec_for_dynamic_import(), dynamic_import);
    }
}

#[test]
fn inclusion_and_hmr_flags() {
    let mut m = module(0, "/a.js");
    assert!(!m.is_included());
    assert!(!m.is_hmr_self_accepting_module());
    m.ecma_view.meta.included = true;
    m.ecma_view.ast_usage.hmr_self_accept = true;
    assert!(m.is_included());
    assert!(m.is_hmr_self_accepting_module());
}

#[test]
fn hmr_dependency_lookup() {
    let mut m = module(0, "/a.js");
    m.ecma_view.hmr_info.deps = vec!["/b.js".to_string(), "/c.js".to_string()];
    assert!(m.can_accept_hmr_dependency_for(&"/c.js".to_string()));
    assert!(!m.can_accept_hmr_dependency_for(&"/d.js".to_string()));
    assert!(!m.can_accept_hmr_dependency_for(&"/b.j".to_string()));
}

#[test]
fn debug_dump_for_tree_shaking() {
    let mut m = module(4, "/a.js");
    m.ecma_view.meta.included = true;
    m.ecma_view.stmt_infos = vec![
        StmtInfo { is_included: true, side_effect: false, debug_label: Some("let a".to_string()) },
        StmtInfo { is_included: false, side_effect: true, debug_label: None },
    ];
    let d = m.to_debug_normal_module_for_tree_shaking();
    assert_eq!(d.id, "repr_4");
    assert!(d.is_included);
    let s: Vec<&DebugStmtInfoForTreeShaking> = d.stmt_infos.iter().collect();
    assert_eq!(s.len(), 2);
    assert_eq!((s[0].is_included, s[0].side_effect, s[0].source.as_str()), (true, false, "let a"));
    assert_eq!((s[1].is_included, s[1].side_effect, s[1].source.as_str()), (false, true, "<Noop>"));
}

#[test]
fn external_star_exports_are_listed_by_record_position() {
    let modules = vec![
        Module::Normal(Box::new(module(0, "/a.js"))),
        Module::External(Box::new(ExternalModule { idx: 1, id: "node:fs".to_string() })),
        Module::Normal(Box::new(module(2, "/c.js"))),
        Module::External(Box::new(ExternalModule { idx: 3, id: "lodash".to_string() })),
    ];
    let mut m = module(0, "/a.js");
    m.ecma_view.import_records =
        vec![record(1, true), record(2, true), record(3, false), record(3, true), record(9, false)];
    assert_eq!(m.star_exports_from_external_modules(&modules), vec![0, 3]);
}

#[test]
fn module_info_sorts_importers_and_lists_exports() {
    let mut m = module(0, "/a.js");
    m.is_user_defined_entry = true;
    m.ecma_view.importers = vec!["/z.js".to_string(), "/b.js".to_string(), "/é.js".to_string(), "/b.js".to_string()];
    m.ecma_view.dynamic_importers = vec!["b".to_string(), "a".to_string(), "ab".to_string(), "".to_string()];
    m.ecma_view.imported_ids = vec!["/q.js".to_string(), "/p.js".to_string()];
    m.ecma_view.named_exports = vec!["default".to_string(), "a".to_string()];
    m.ecma_view.import_records = vec![record(1, true), record(2, false), record(3, true)];
    let info = m.to_module_info(None);
    assert_eq!(info.code.as_deref(), Some("export const a = 1;"));
    assert_eq!(info.id, "/a.js");
    assert!(info.is_entry);
    assert_eq!(info.importers, vec!["/b.js", "/b.js", "/z.js", "/é.js"]);
    assert_eq!(info.dynamic_importers, vec!["", "a", "ab", "b"]);
    assert_eq!(info.imported_ids, vec!["/q.js", "/p.js"]);
    assert!(info.dynamically_imported_ids.is_empty());
    assert_eq!(info.exports, vec!["default", "a", "*", "*"]);

    let raw = vec![raw_record(false), raw_record(true), raw_record(true), raw_record(true)];
    let info = m.to_module_info(Some(&raw));
    assert_eq!(info.exports, vec!["default", "a", "*", "*", "*"]);
}

#[test]
fn module_info_importer_order_matches_str_ord() {
    let mut m = module(0, "/a.js");
    let mut ids: Vec<String> =
        ["b", "B", "ä", "a", "aa", "Z", "", "😀", "a😀", "ab"].iter().map(|s| s.to_string()).collect();
    m.ecma_view.importers = ids.clone();
    let info = m.to_module_info(None);
    ids.sort();
    assert_eq!(info.importers, ids);
}

#[test]
fn print_options_for_render() {
    let m = module(0, "/src/a.js");
    let on = NormalizedBundlerOptions { sourcemap: Some(SourceMapType::File), legal_comments: LegalComments::Inline };
    let off = NormalizedBundlerOptions { sourcemap: None, legal_comments: LegalComments::Omit };
    let p = m.render_print_options(&on);
    assert!(p.sourcemap);
    assert!(p.print_legal_comments);
    assert_eq!(p.filename, "/src/a.js");
    let p = m.render_print_options(&off);
    assert!(!p.sourcemap);
    assert!(!p.print_legal_comments);
    let v = module(1, "\0virtual");
    assert!(!v.render_print_options(&on).sourcemap);
}

#[test]
fn module_info_depends_on_raw_records_only_through_star_count() {
    let mut m = module(0, "/a.js");
    m.ecma_view.importers = vec!["/c.js".to_string(), "/b.js".to_string()];
    m.ecma_view.named_exports = vec!["x".to_string()];
    m.ecma_view.import_records = vec![record(1, true)];
    let first = vec![raw_record(true), raw_record(false), raw_record(true)];
    let mut second = vec![raw_record(false), raw_record(true), raw_record(true), raw_record(false)];
    second[0].module_request = "./elsewhere".to_string();
    let a = m.to_module_info(Some(&first));
    let b = m.to_module_info(Some(&second));
    assert_eq!(a.exports, vec!["x", "*", "*"]);
    assert_eq!(a.exports, b.exports);
    assert_eq!(a.importers, b.importers);
    assert_eq!(a.id, b.id);
    assert_eq!(a.code, b.code);
}
