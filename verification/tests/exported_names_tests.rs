use std::collections::HashSet;

use rolldown_core::module::{
    EcmaModuleAstUsage, EcmaView, EcmaViewMeta, ExportsKind, ExternalModule, HmrInfo, ImportKind,
    ImportRecord, ImportRecordMeta, Module, ModuleDefFormat, ModuleType, NormalModule, ResolvedId,
};

fn module(idx: usize, names: &[&str], stars: &[usize]) -> NormalModule {
    NormalModule {
        exec_order: 0,
        idx,
        is_user_defined_entry: false,
        id: format!("/m{idx}.js"),
        stable_id: format!("m{idx}.js"),
        debug_id: format!("m{idx}.js"),
        repr_name: format!("m{idx}"),
        module_type: ModuleType::Js,
        ecma_view: EcmaView {
            source: String::new(),
            import_records: stars
                .iter()
                .map(|&t| ImportRecord {
                    module_request: format!("./m{t}.js"),
                    kind: ImportKind::Import,
                    resolved_module: t,
                    meta: ImportRecordMeta { is_export_star: true, is_top_level: true },
                })
                .collect(),
            meta: EcmaViewMeta { included: true, star_export: !stars.is_empty() },
            stmt_infos: vec![],
            named_exports: names.iter().map(|s| s.to_string()).collect(),
            exports_kind: ExportsKind::Esm,
            def_format: ModuleDefFormat::EsmMjs,
            importers: vec![],
            dynamic_importers: vec![],
            imported_ids: vec![],
            dynamically_imported_ids: vec![],
            ast_usage: EcmaModuleAstUsage {
                module_ref: false,
                exports_ref: false,
                es_module_flag: false,
                hmr_self_accept: false,
            },
            hmr_info: HmrInfo { deps: vec![], module_request_to_import_record_idx: vec![] },
        },
        css_view: None,
        asset_view: None,
        originative_resolved_id: ResolvedId {
            id: format!("/m{idx}.js"),
            module_def_format: ModuleDefFormat::EsmMjs,
            is_external: false,
        },
    }
}

fn normal(m: NormalModule) -> Module {
    Module::Normal(Box::new(m))
}

fn sorted(v: &[String]) -> Vec<String> {
    let mut v = v.to_vec();
    v.sort();
    v
}

fn names_of(modules: &[Module], root: usize, include_default: bool, visited: &mut HashSet<usize>) -> Vec<String> {
    let modules = modules.to_vec();
    let mut ret = Vec::new();
    modules[root].as_normal().unwrap().get_exported_names(visited, &modules, include_default, &mut ret);
    ret
}

#[test]
fn star_exports_are_followed_transitively_without_defaults() {
    // 0 -> 1 -> 2, 0 -> 3 (external)
    let modules = vec![
        normal(module(0, &["default", "a"], &[1, 3])),
        normal(module(1, &["default", "b"], &[2])),
        normal(module(2, &["c", "default"], &[])),
        Module::External(Box::new(ExternalModule { idx: 3, id: "ext".to_string() })),
    ];
    let mut visited = HashSet::new();
    let ret = names_of(&modules, 0, true, &mut visited);
    assert_eq!(sorted(&ret), vec!["a", "b", "c", "default"]);
    assert_eq!(visited, HashSet::from([0, 1, 2]));

    let mut visited = HashSet::new();
    let ret = names_of(&modules, 0, false, &mut visited);
    assert_eq!(sorted(&ret), vec!["a", "b", "c"]);
}

#[test]
fn cycles_and_diamonds_visit_each_module_once() {
    // 0 -> 1, 0 -> 2, 1 -> 3, 2 -> 3, 3 -> 0
    let modules = vec![
        normal(module(0, &["a", "shared"], &[1, 2])),
        normal(module(1, &["b", "shared"], &[3])),
        normal(module(2, &["c"], &[3])),
        normal(module(3, &["d", "default"], &[0])),
    ];
    let mut visited = HashSet::new();
    let ret = names_of(&modules, 0, true, &mut visited);
    assert_eq!(ret.len(), 5, "no name twice: {ret:?}");
    assert_eq!(sorted(&ret), vec!["a", "b", "c", "d", "shared"]);
    assert_eq!(visited, HashSet::from([0, 1, 2, 3]));
}

#[test]
fn visited_modules_are_not_entered_again() {
    let modules = vec![
        normal(module(0, &["a"], &[1, 2])),
        normal(module(1, &["b"], &[])),
        normal(module(2, &["c"], &[1])),
    ];
    // The root itself was already visited: nothing changes.
    let mut visited = HashSet::from([0]);
    let ret = names_of(&modules, 0, true, &mut visited);
    assert!(ret.is_empty());
    assert_eq!(visited, HashSet::from([0]));
    // A module on every path was already visited: its names stay out.
    let mut visited = HashSet::from([1]);
    let ret = names_of(&modules, 0, true, &mut visited);
    assert_eq!(sorted(&ret), vec!["a", "c"]);
    assert_eq!(visited, HashSet::from([0, 1, 2]));
}

#[test]
fn names_already_collected_are_kept_once() {
    let modules = vec![normal(module(0, &["a", "b"], &[]))];
    let mut visited = HashSet::new();
    let mut ret = vec!["b".to_string(), "z".to_string()];
    modules[0].as_normal().unwrap().get_exported_names(&mut visited, &modules, true, &mut ret);
    assert_eq!(ret, vec!["b", "z", "a"]);
}

#[test]
fn a_second_call_adds_nothing() {
    let modules = vec![
        normal(module(0, &["a"], &[1])),
        normal(module(1, &["b"], &[])),
    ];
    let mut visited = HashSet::new();
    let mut ret = Vec::new();
    let root = modules[0].as_normal().unwrap();
    root.get_exported_names(&mut visited, &modules, true, &mut ret);
    let before = (visited.clone(), ret.clone());
    root.get_exported_names(&mut visited, &modules, true, &mut ret);
    assert_eq!((visited, ret), before);
}
