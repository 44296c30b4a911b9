use rolldown_core::hmr::{
    Argument, ArrayExpression, ArrayExpressionElement, AstScanner, CallExpression, Expression,
    IdentifierName, MetaProperty, ScanOptions, ScanResult, StaticMemberExpression, StringLiteral,
};
use rolldown_core::module::{EcmaModuleAstUsage, HmrInfo, ImportKind, Span};

fn ident(s: &str) -> IdentifierName {
    IdentifierName { name: s.to_string() }
}

fn member(object: Expression, property: &str) -> Expression {
    Expression::StaticMemberExpression(Box::new(StaticMemberExpression { object, property: ident(property) }))
}

fn import_meta() -> Expression {
    Expression::MetaProperty(Box::new(MetaProperty { meta: ident("import"), property: ident("meta") }))
}

fn hot_accept() -> Expression {
    member(member(import_meta(), "hot"), "accept")
}

fn lit(s: &str) -> StringLiteral {
    StringLiteral { value: s.to_string(), span: Span { start: 0, end: 0 } }
}

fn call(callee: Expression, arguments: Vec<Argument>) -> CallExpression {
    CallExpression { callee, arguments, span: Span { start: 10, end: 40 } }
}

fn scanner(hmr: bool) -> AstScanner {
    AstScanner {
        options: ScanOptions { hmr },
        result: ScanResult {
            ast_usage: EcmaModuleAstUsage {
                module_ref: true,
                exports_ref: false,
                es_module_flag: false,
                hmr_self_accept: false,
            },
            import_records: vec![],
            hmr_info: HmrInfo { deps: vec![], module_request_to_import_record_idx: vec![] },
        },
    }
}

fn requests(s: &AstScanner) -> Vec<(String, usize)> {
    let mut v = s.result.hmr_info.module_request_to_import_record_idx.clone();
    v.sort();
    v
}

#[test]
fn callee_recognition() {
    assert!(import_meta().is_import_meta());
    assert!(member(import_meta(), "hot").is_import_meta_hot());
    assert!(hot_accept().is_import_meta_hot_accept());
    assert!(!member(member(import_meta(), "hot"), "dispose").is_import_meta_hot_accept());
    let new_target = Expression::MetaProperty(Box::new(MetaProperty { meta: ident("new"), property: ident("target") }));
    assert!(!member(member(new_target, "hot"), "accept").is_import_meta_hot_accept());
    assert!(!member(member(Expression::Other, "hot"), "accept").is_import_meta_hot_accept());
}

#[test]
fn accept_without_arguments_is_self_accept() {
    let mut s = scanner(true);
    s.try_extract_hmr_info_from_hot_accept_call(&call(hot_accept(), vec![]));
    assert!(s.result.ast_usage.hmr_self_accept);
    assert!(s.result.ast_usage.module_ref);
    assert!(s.result.import_records.is_empty());
}

#[test]
fn accept_with_one_argument_is_self_accept() {
    let mut s = scanner(true);
    s.try_extract_hmr_info_from_hot_accept_call(&call(hot_accept(), vec![Argument::StringLiteral(lit("./dep.js"))]));
    assert!(s.result.ast_usage.hmr_self_accept);
    assert!(s.result.import_records.is_empty());
    assert!(requests(&s).is_empty());
}

#[test]
fn accept_one_dependency() {
    let mut s = scanner(true);
    s.try_extract_hmr_info_from_hot_accept_call(&call(
        hot_accept(),
        vec![Argument::StringLiteral(lit("./dep.js")), Argument::Other],
    ));
    assert!(!s.result.ast_usage.hmr_self_accept);
    assert_eq!(s.result.import_records.len(), 1);
    let r = &s.result.import_records[0];
    assert_eq!(r.module_request, "./dep.js");
    assert_eq!(r.kind, ImportKind::HotAccept);
    assert_eq!(r.span, Span { start: 10, end: 40 });
    assert!(!r.meta.is_export_star);
    assert_eq!(requests(&s), vec![("./dep.js".to_string(), 0)]);
}

#[test]
fn accept_array_of_dependencies() {
    let mut s = scanner(true);
    s.try_extract_hmr_info_from_hot_accept_call(&call(
        hot_accept(),
        vec![Argument::StringLiteral(lit("./first.js")), Argument::Other],
    ));
    let arr = ArrayExpression {
        elements: vec![
            ArrayExpressionElement::StringLiteral(lit("./a.js")),
            ArrayExpressionElement::Other,
            ArrayExpressionElement::StringLiteral(lit("./b.js")),
            ArrayExpressionElement::StringLiteral(lit("./a.js")),
        ],
    };
    s.try_extract_hmr_info_from_hot_accept_call(&call(hot_accept(), vec![Argument::ArrayExpression(arr), Argument::Other]));
    let reqs: Vec<&str> = s.result.import_records.iter().map(|r| r.module_request.as_str()).collect();
    assert_eq!(reqs, vec!["./first.js", "./a.js", "./b.js", "./a.js"]);
    assert_eq!(
        requests(&s),
        vec![("./a.js".to_string(), 3), ("./b.js".to_string(), 2), ("./first.js".to_string(), 0)]
    );
    assert!(!s.result.ast_usage.hmr_self_accept);
}

#[test]
fn unsupported_patterns_change_nothing() {
    let mut s = scanner(true);
    s.try_extract_hmr_info_from_hot_accept_call(&call(
        hot_accept(),
        vec![Argument::StringLiteral(lit("./a.js")), Argument::Other, Argument::Other],
    ));
    s.try_extract_hmr_info_from_hot_accept_call(&call(hot_accept(), vec![Argument::Other, Argument::Other]));
    assert!(!s.result.ast_usage.hmr_self_accept);
    assert!(s.result.import_records.is_empty());
    assert!(requests(&s).is_empty());
}

#[test]
fn nothing_happens_when_hmr_is_off_or_the_callee_differs() {
    let mut s = scanner(false);
    s.try_extract_hmr_info_from_hot_accept_call(&call(hot_accept(), vec![]));
    assert!(!s.result.ast_usage.hmr_self_accept);
    let mut s = scanner(true);
    s.try_extract_hmr_info_from_hot_accept_call(&call(member(import_meta(), "hot"), vec![]));
    s.try_extract_hmr_info_from_hot_accept_call(&call(
        member(member(import_meta(), "hot"), "decline"),
        vec![Argument::StringLiteral(lit("./a.js")), Argument::Other],
    ));
    assert!(!s.result.ast_usage.hmr_self_accept);
    assert!(s.result.import_records.is_empty());
}

#[test]
fn add_import_record_returns_its_position() {
    let mut s = scanner(true);
    let a = s.add_import_record("./a.js", ImportKind::Import, Span { start: 1, end: 2 }, rolldown_core::module::ImportRecordMeta::empty());
    let b = s.add_import_record("./b.js", ImportKind::DynamicImport, Span { start: 3, end: 4 }, rolldown_core::module::ImportRecordMeta::empty());
    assert_eq!((a, b), (0, 1));
    assert_eq!(s.result.import_records[1].module_request, "./b.js");
}
