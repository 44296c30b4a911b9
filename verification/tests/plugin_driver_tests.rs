use std::borrow::Cow;
use std::sync::Arc;

use oxc_sourcemap::SourceMap;
use rolldown_core::module::ModuleType;
use rolldown_core::plugin_driver::{
    HookCursor, HookResolveIdSkipped, HookStep, HookSideEffects, HookTransformOutput, PluginDriver,
    TransformState,
};
use rolldown_core::sourcemap::SourcemapHires;

fn skipped(plugin_idx: usize, specifier: &str, importer: Option<&str>) -> Arc<HookResolveIdSkipped> {
    Arc::new(HookResolveIdSkipped {
        plugin_idx,
        importer: importer.map(|s| s.to_string()),
        specifier: specifier.to_string(),
    })
}

fn driver() -> PluginDriver {
    PluginDriver {
        order_by_build_start_meta: vec![0, 1, 2],
        order_by_resolve_id_meta: vec![2, 0, 1, 3],
        order_by_resolve_dynamic_import_meta: vec![1, 3],
        order_by_load_meta: vec![3],
        order_by_transform_meta: vec![0, 3],
        order_by_transform_ast_meta: vec![],
        order_by_module_parsed_meta: vec![],
        order_by_build_end_meta: vec![1],
        transform_hires_sourcemap: None,
    }
}

fn drain(mut c: HookCursor) -> Vec<usize> {
    let mut out = vec![];
    while let Some(p) = c.next_plugin() {
        out.push(p);
    }
    assert_eq!(c.next_plugin(), None);
    out
}

fn map(sources: &[&str], contents: &[Option<&str>]) -> SourceMap<'static> {
    SourceMap::new(
        None,
        vec![],
        None,
        sources.iter().map(|s| Cow::Owned(s.to_string())).collect(),
        contents.iter().map(|c| c.map(|s| Cow::Owned(s.to_string()))).collect(),
        Vec::new().into_boxed_slice(),
        None,
    )
}

fn sources(m: &SourceMap<'static>) -> Vec<String> {
    m.get_sources().map(|s| s.to_string()).collect()
}

fn contents(m: &SourceMap<'static>) -> Vec<Option<String>> {
    m.get_source_contents().map(|c| c.map(|s| s.to_string())).collect()
}

#[test]
fn skipped_plugins_match_specifier_and_importer() {
    let calls = vec![
        skipped(1, "./a", Some("/main.js")),
        skipped(2, "./a", None),
        skipped(3, "./b", Some("/main.js")),
        skipped(4, "./a", Some("/main.js")),
        skipped(5, "./a", Some("/other.js")),
    ];
    assert_eq!(PluginDriver::get_resolve_call_skipped_plugins("./a", Some("/main.js"), Some(&calls)), vec![1, 4]);
    assert_eq!(PluginDriver::get_resolve_call_skipped_plugins("./a", None, Some(&calls)), vec![2]);
    assert_eq!(PluginDriver::get_resolve_call_skipped_plugins("./c", None, Some(&calls)), Vec::<usize>::new());
    assert_eq!(PluginDriver::get_resolve_call_skipped_plugins("./a", Some("/main.js"), None), Vec::<usize>::new());
}

#[test]
fn cursor_passes_over_skipped_plugins_in_order() {
    assert_eq!(drain(HookCursor::new(&vec![2, 0, 1, 3], vec![0, 3])), vec![2, 1]);
    assert_eq!(drain(HookCursor::new(&vec![2, 0, 1, 3], vec![])), vec![2, 0, 1, 3]);
    assert_eq!(drain(HookCursor::new(&vec![], vec![1])), Vec::<usize>::new());
    assert_eq!(drain(HookCursor::new(&vec![5, 5], vec![5])), Vec::<usize>::new());
}

#[test]
fn resolve_hooks_skip_plugins_of_skip_self_calls() {
    let d = driver();
    let calls = vec![skipped(0, "./a", None), skipped(3, "./a", None)];
    assert_eq!(drain(d.resolve_id_plugins("./a", None, Some(&calls))), vec![2, 1]);
    assert_eq!(drain(d.resolve_id_plugins("./a", Some("/x.js"), Some(&calls))), vec![2, 0, 1, 3]);
    assert_eq!(drain(d.resolve_id_plugins("./a", None, None)), vec![2, 0, 1, 3]);
    assert_eq!(drain(d.resolve_dynamic_import_plugins("./a", None, Some(&calls))), vec![1]);
}

#[test]
fn returned_map_gets_missing_source_and_content() {
    let d = driver();
    let m = d.normalize_transform_sourcemap(Some(map(&[], &[])), "/a.js", "code", None).unwrap();
    assert_eq!(sources(&m), vec!["/a.js"]);
    assert_eq!(contents(&m), vec![Some("code".to_string())]);

    let m = d.normalize_transform_sourcemap(Some(map(&[""], &[Some("")])), "/a.js", "code", None).unwrap();
    assert_eq!(sources(&m), vec!["/a.js"]);
    assert_eq!(contents(&m), vec![Some("code".to_string())]);

    // One source that is not the id: replaced.
    let m = d.normalize_transform_sourcemap(Some(map(&["other.js"], &[None])), "/a.js", "code", None).unwrap();
    assert_eq!(sources(&m), vec!["/a.js"]);
    assert_eq!(contents(&m), vec![Some("code".to_string())]);

    // Several sources, the first one present: kept, as is present content.
    let m = d
        .normalize_transform_sourcemap(Some(map(&["x.js", "y.js"], &[Some("orig")])), "/a.js", "code", None)
        .unwrap();
    assert_eq!(sources(&m), vec!["x.js", "y.js"]);
    assert_eq!(contents(&m), vec![Some("orig".to_string())]);

    // Already the id: kept.
    let m = d.normalize_transform_sourcemap(Some(map(&["/a.js"], &[Some("c")])), "/a.js", "code", None).unwrap();
    assert_eq!(sources(&m), vec!["/a.js"]);
    assert_eq!(contents(&m), vec![Some("c".to_string())]);
}

#[test]
fn changed_code_without_map_gets_a_fresh_map() {
    let mut d = driver();
    let new_code = "changed".to_string();
    let same = "code".to_string();
    assert!(d.normalize_transform_sourcemap(None, "/a.js", "code", None).is_none());
    assert!(d.normalize_transform_sourcemap(None, "/a.js", "code", Some(&same)).is_none());
    let m = d.normalize_transform_sourcemap(None, "/a.js", "code", Some(&new_code)).unwrap();
    assert_eq!(sources(&m), vec!["/a.js"]);
    assert_eq!(contents(&m), vec![Some("code".to_string())]);
    d.transform_hires_sourcemap = Some(SourcemapHires::Boundary);
    let m = d.normalize_transform_sourcemap(None, "/a.js", "a b\nc", Some(&new_code)).unwrap();
    assert_eq!(sources(&m), vec!["/a.js"]);
    assert_eq!(contents(&m), vec![Some("a b\nc".to_string())]);
    assert!(m.get_tokens().count() > 0);
}

#[test]
fn normalizing_twice_keeps_sources_and_contents() {
    let d = driver();
    let once = d.normalize_transform_sourcemap(Some(map(&["other.js"], &[])), "/a.js", "code", None).unwrap();
    let twice = d.normalize_transform_sourcemap(Some(once.clone()), "/a.js", "code", None).unwrap();
    assert_eq!(sources(&twice), sources(&once));
    assert_eq!(contents(&twice), contents(&once));
}

#[test]
fn transform_outputs_fold_into_the_state() {
    let d = driver();
    let mut state = TransformState {
        code: "a".to_string(),
        sourcemap_chain: vec![],
        side_effects: None,
        module_type: ModuleType::Js,
    };
    d.apply_transform_output("/m.ts", &mut state, vec![], None);
    assert_eq!(state.code, "a");
    assert!(state.sourcemap_chain.is_empty());

    d.apply_transform_output(
        "/m.ts",
        &mut state,
        vec![],
        Some(HookTransformOutput {
            code: Some("b".to_string()),
            map: None,
            side_effects: Some(HookSideEffects::False),
            module_type: Some(ModuleType::Ts),
        }),
    );
    assert_eq!(state.code, "b");
    assert_eq!(state.sourcemap_chain.len(), 1);
    assert_eq!(contents(&state.sourcemap_chain[0]), vec![Some("a".to_string())]);
    assert_eq!(state.side_effects, Some(HookSideEffects::False));
    assert_eq!(state.module_type, ModuleType::Ts);

    // Same code, no map, nothing else: only nothing changes.
    d.apply_transform_output(
        "/m.ts",
        &mut state,
        vec![],
        Some(HookTransformOutput { code: Some("b".to_string()), map: None, side_effects: None, module_type: None }),
    );
    assert_eq!(state.sourcemap_chain.len(), 1);
    assert_eq!(state.side_effects, Some(HookSideEffects::False));
    assert_eq!(state.module_type, ModuleType::Ts);

    // A map without code keeps the code and joins the chain.
    d.apply_transform_output(
        "/m.ts",
        &mut state,
        vec![],
        Some(HookTransformOutput { code: None, map: Some(map(&[], &[])), side_effects: None, module_type: None }),
    );
    assert_eq!(state.code, "b");
    assert_eq!(state.sourcemap_chain.len(), 2);
    assert_eq!(sources(&state.sourcemap_chain[1]), vec!["/m.ts"]);
    assert_eq!(contents(&state.sourcemap_chain[1]), vec![Some("b".to_string())]);
}

fn run_first(mut c: HookCursor, results: impl Fn(usize) -> Result<Option<usize>, String>) -> (Vec<usize>, Result<Option<usize>, String>) {
    let mut asked = vec![];
    let mut last = Ok(None);
    loop {
        match c.first_answer_step(last) {
            HookStep::Call(p, ()) => {
                asked.push(p);
                last = results(p);
            }
            HookStep::Done(r) => return (asked, r),
        }
    }
}

fn run_seq(mut c: HookCursor, start: i32, hook: impl Fn(usize, i32) -> Result<i32, String>) -> (Vec<usize>, Result<i32, String>) {
    let mut called = vec![];
    let mut last = Ok(start);
    loop {
        match c.sequential_step(last) {
            HookStep::Call(p, a) => {
                called.push(p);
                last = hook(p, a);
            }
            HookStep::Done(r) => return (called, r),
        }
    }
}

#[test]
fn first_answer_wins() {
    let answers = |p: usize| Ok(if p == 1 || p == 3 { Some(p * 10) } else { None });
    let (asked, result) = run_first(HookCursor::new(&vec![2, 0, 1, 3], vec![0]), answers);
    assert_eq!(asked, vec![2, 1]);
    assert_eq!(result, Ok(Some(10)));

    let (asked, result) = run_first(HookCursor::new(&vec![2, 0], vec![]), answers);
    assert_eq!(asked, vec![2, 0]);
    assert_eq!(result, Ok(None));
}

#[test]
fn first_error_ends_a_first_answer_hook() {
    let results = |p: usize| match p {
        0 => Err("failed".to_string()),
        1 => Ok(Some(10)),
        _ => Ok(None),
    };
    let (asked, result) = run_first(HookCursor::new(&vec![2, 0, 1, 3], vec![]), results);
    assert_eq!(asked, vec![2, 0]);
    assert_eq!(result, Err("failed".to_string()));

    // A skipped plugin's error is never reached.
    let (asked, result) = run_first(HookCursor::new(&vec![2, 0, 1, 3], vec![0]), results);
    assert_eq!(asked, vec![2, 1]);
    assert_eq!(result, Ok(Some(10)));
}

#[test]
fn sequential_hooks_pass_values_and_stop_at_the_first_error() {
    let hook = |p: usize, a: i32| if p == 9 { Err(format!("plugin {p}")) } else { Ok(a * 10 + p as i32) };
    let (called, result) = run_seq(HookCursor::new(&vec![1, 2, 3], vec![]), 0, hook);
    assert_eq!(called, vec![1, 2, 3]);
    assert_eq!(result, Ok(123));

    let (called, result) = run_seq(HookCursor::new(&vec![1, 9, 3, 9], vec![]), 0, hook);
    assert_eq!(called, vec![1, 9]);
    assert_eq!(result, Err("plugin 9".to_string()));

    let (called, result) = run_seq(HookCursor::new(&vec![], vec![]), 7, hook);
    assert!(called.is_empty());
    assert_eq!(result, Ok(7));
}

#[test]
fn transform_steps_fold_results_and_stop_on_an_error() {
    let d = driver();
    let mut cursor = HookCursor::new(&d.order_by_transform_meta, vec![]);
    let mut state = TransformState {
        code: "a".to_string(),
        sourcemap_chain: vec![map(&["first.js"], &[])],
        side_effects: None,
        module_type: ModuleType::Js,
    };
    let step = d.transform_step::<String>(&mut cursor, "/m.js", &mut state, None);
    assert!(matches!(step, HookStep::Call(0, ())));
    let step = d.transform_step::<String>(
        &mut cursor,
        "/m.js",
        &mut state,
        Some((
            Ok(Some(HookTransformOutput {
                code: Some("b".to_string()),
                map: None,
                side_effects: Some(HookSideEffects::False),
                module_type: Some(ModuleType::Ts),
            })),
            vec![],
        )),
    );
    assert!(matches!(step, HookStep::Call(3, ())));
    assert_eq!(state.code, "b");
    assert_eq!(state.sourcemap_chain.len(), 2);

    let step = d.transform_step(&mut cursor, "/m.js", &mut state, Some((Err("boom".to_string()), vec![map(&["x.js"], &[])])));
    assert!(matches!(step, HookStep::Done(Err(ref e)) if e == "boom"));
    assert_eq!(state.code, "b");
    assert!(state.sourcemap_chain.is_empty());
    assert_eq!(state.side_effects, Some(HookSideEffects::False));
    assert_eq!(state.module_type, ModuleType::Ts);
}

#[test]
fn transform_steps_end_after_the_last_plugin() {
    let mut d = driver();
    d.order_by_transform_meta = vec![4];
    let mut cursor = HookCursor::new(&d.order_by_transform_meta, vec![]);
    let mut state = TransformState {
        code: "a".to_string(),
        sourcemap_chain: vec![],
        side_effects: None,
        module_type: ModuleType::Js,
    };
    assert!(matches!(d.transform_step::<String>(&mut cursor, "/m.js", &mut state, None), HookStep::Call(4, ())));
    let step = d.transform_step::<String>(&mut cursor, "/m.js", &mut state, Some((Ok(None), vec![])));
    assert!(matches!(step, HookStep::Done(Ok(()))));
    assert_eq!(state.code, "a");
}

#[test]
fn context_maps_join_the_chain_before_the_result_map() {
    let d = driver();
    let mut state = TransformState {
        code: "a".to_string(),
        sourcemap_chain: vec![map(&["first.js"], &[Some("f")])],
        side_effects: None,
        module_type: ModuleType::Js,
    };
    d.apply_transform_output(
        "/m.js",
        &mut state,
        vec![map(&["ctx.js"], &[Some("c")])],
        Some(HookTransformOutput { code: Some("b".to_string()), map: None, side_effects: None, module_type: None }),
    );
    assert_eq!(state.sourcemap_chain.len(), 3);
    assert_eq!(sources(&state.sourcemap_chain[0]), vec!["first.js"]);
    assert_eq!(sources(&state.sourcemap_chain[1]), vec!["ctx.js"]);
    assert_eq!(sources(&state.sourcemap_chain[2]), vec!["/m.js"]);
    assert_eq!(contents(&state.sourcemap_chain[2]), vec![Some("a".to_string())]);

    // A hook that returned nothing still keeps the maps it added.
    d.apply_transform_output("/m.js", &mut state, vec![map(&["late.js"], &[])], None);
    assert_eq!(state.sourcemap_chain.len(), 4);
    assert_eq!(sources(&state.sourcemap_chain[3]), vec!["late.js"]);
    assert_eq!(state.code, "b");
}

#[test]
fn generated_map_follows_the_configured_resolution() {
    let mut d = driver();
    let new_code = "changed".to_string();
    let original = "let answer = 42;";
    // Unset means high resolution: one mapping per character.
    let fine = d.normalize_transform_sourcemap(None, "/a.js", original, Some(&new_code)).unwrap();
    d.transform_hires_sourcemap = Some(SourcemapHires::Boolean(true));
    let fine_again = d.normalize_transform_sourcemap(None, "/a.js", original, Some(&new_code)).unwrap();
    d.transform_hires_sourcemap = Some(SourcemapHires::Boolean(false));
    let coarse = d.normalize_transform_sourcemap(None, "/a.js", original, Some(&new_code)).unwrap();
    assert_eq!(fine.get_tokens().count(), original.len());
    assert_eq!(fine_again.get_tokens().count(), fine.get_tokens().count());
    assert_eq!(coarse.get_tokens().count(), 1);
    assert!(fine.get_names().next().is_none());
}

#[test]
fn returned_map_keeps_its_mappings() {
    let d = driver();
    let original = "let x = 1;";
    let mut hook = driver();
    hook.transform_hires_sourcemap = Some(SourcemapHires::Boolean(true));
    let other = "changed".to_string();
    let from_hook = hook.normalize_transform_sourcemap(None, "other.js", original, Some(&other)).unwrap();
    let before: Vec<_> = from_hook.get_tokens().map(|t| (t.get_dst_line(), t.get_dst_col(), t.get_src_line(), t.get_src_col())).collect();
    let m = d.normalize_transform_sourcemap(Some(from_hook), "/a.js", "x", None).unwrap();
    let after: Vec<_> = m.get_tokens().map(|t| (t.get_dst_line(), t.get_dst_col(), t.get_src_line(), t.get_src_col())).collect();
    assert_eq!(sources(&m), vec!["/a.js"]);
    assert_eq!(contents(&m), vec![Some(original.to_string())]);
    assert_eq!(before, after);
}
