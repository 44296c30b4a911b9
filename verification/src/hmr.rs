//! What the AST scanner learns from `import.meta.hot.accept(...)` calls.
use vstd::prelude::*;

use crate::module::{
    EcmaModuleAstUsage, HmrInfo, ImportKind, ImportRecordIdx, ImportRecordMeta, RawImportRecord,
    Span,
};
use crate::text::str_eq;

verus! {

/// An identifier or property name.
#[derive(Debug, Clone)]
pub struct IdentifierName {
    pub name: String,
}

/// `object.property`.
#[derive(Debug)]
pub struct StaticMemberExpression {
    pub object: Expression,
    pub property: IdentifierName,
}

/// `meta.property`, such as `import.meta`.
#[derive(Debug)]
pub struct MetaProperty {
    pub meta: IdentifierName,
    pub property: IdentifierName,
}

/// The expressions that matter to the callee of a call; all others are `Other`.
#[derive(Debug)]
pub enum Expression {
    StaticMemberExpression(Box<StaticMemberExpression>),
    MetaProperty(Box<MetaProperty>),
    Other,
}

/// A string literal.
#[derive(Debug, Clone)]
pub struct StringLiteral {
    pub value: String,
    pub span: Span,
}

/// An element of an array literal.
#[derive(Debug, Clone)]
pub enum ArrayExpressionElement {
    StringLiteral(StringLiteral),
    Other,
}

/// An array literal.
#[derive(Debug, Clone)]
pub struct ArrayExpression {
    pub elements: Vec<ArrayExpressionElement>,
}

/// An argument of a call.
#[derive(Debug, Clone)]
pub enum Argument {
    StringLiteral(StringLiteral),
    ArrayExpression(ArrayExpression),
    Other,
}

/// A call expression.
#[derive(Debug)]
pub struct CallExpression {
    pub callee: Expression,
    pub arguments: Vec<Argument>,
    pub span: Span,
}

pub open spec fn import_chars() -> Seq<char> {
    seq!['i', 'm', 'p', 'o', 'r', 't']
}

pub open spec fn meta_chars() -> Seq<char> {
    seq!['m', 'e', 't', 'a']
}

pub open spec fn hot_chars() -> Seq<char> {
    seq!['h', 'o', 't']
}

pub open spec fn accept_chars() -> Seq<char> {
    seq!['a', 'c', 'c', 'e', 'p', 't']
}

/// `e` is `import.meta`.
pub open spec fn spec_is_import_meta(e: Expression) -> bool {
    match e {
        Expression::MetaProperty(m) => m.meta.name@ == import_chars() && m.property.name@
            == meta_chars(),
        _ => false,
    }
}

/// `e` is `import.meta.hot`.
pub open spec fn spec_is_import_meta_hot(e: Expression) -> bool {
    match e {
        Expression::StaticMemberExpression(m) => m.property.name@ == hot_chars()
            && spec_is_import_meta(m.object),
        _ => false,
    }
}

/// `e` is `import.meta.hot.accept`.
pub open spec fn spec_is_import_meta_hot_accept(e: Expression) -> bool {
    match e {
        Expression::StaticMemberExpression(m) => m.property.name@ == accept_chars()
            && spec_is_import_meta_hot(m.object),
        _ => false,
    }
}

impl Expression {
    pub fn is_import_meta(&self) -> (r: bool)
        ensures
            r == spec_is_import_meta(*self),
    {
        proof {
            reveal_strlit("import");
            reveal_strlit("meta");
        }
        assert("import"@ =~= import_chars());
        assert("meta"@ =~= meta_chars());
        match self {
            Expression::MetaProperty(m) => str_eq(m.meta.name.as_str(), "import") && str_eq(
                m.property.name.as_str(),
                "meta",
            ),
            _ => false,
        }
    }

    pub fn is_import_meta_hot(&self) -> (r: bool)
        ensures
            r == spec_is_import_meta_hot(*self),
    {
        proof {
            reveal_strlit("hot");
        }
        assert("hot"@ =~= hot_chars());
        match self {
            Expression::StaticMemberExpression(m) => str_eq(m.property.name.as_str(), "hot")
                && m.object.is_import_meta(),
            _ => false,
        }
    }

    pub fn is_import_meta_hot_accept(&self) -> (r: bool)
        ensures
            r == spec_is_import_meta_hot_accept(*self),
    {
        proof {
            reveal_strlit("accept");
        }
        assert("accept"@ =~= accept_chars());
        match self {
            Expression::StaticMemberExpression(m) => str_eq(m.property.name.as_str(), "accept")
                && m.object.is_import_meta_hot(),
            _ => false,
        }
    }
}

/// The map from requests to import records that a list of pairs stands
/// for; a later pair overrides an earlier one with the same request.
pub open spec fn request_map(v: Seq<(String, ImportRecordIdx)>) -> Map<Seq<char>, ImportRecordIdx>
    decreases v.len(),
{
    if v.len() == 0 {
        Map::empty()
    } else {
        request_map(v.drop_last()).insert(v.last().0@, v.last().1)
    }
}

/// No request occurs twice.
pub open spec fn unique_requests(v: Seq<(String, ImportRecordIdx)>) -> bool {
    forall|i: int, j: int| 0 <= i < j < v.len() ==> #[trigger] v[i].0@ != #[trigger] v[j].0@
}

proof fn lemma_request_map_contains(v: Seq<(String, ImportRecordIdx)>, k: Seq<char>)
    ensures
        request_map(v).dom().contains(k) <==> exists|i: int| 0 <= i < v.len() && #[trigger] v[i].0@ == k,
    decreases v.len(),
{
    if v.len() > 0 {
        lemma_request_map_contains(v.drop_last(), k);
        if request_map(v).dom().contains(k) && k != v.last().0@ {
            let i = choose|i: int| 0 <= i < v.drop_last().len() && #[trigger] v.drop_last()[i].0@ == k;
            assert(v[i].0@ == k);
        }
        if exists|i: int| 0 <= i < v.len() && #[trigger] v[i].0@ == k {
            let i = choose|i: int| 0 <= i < v.len() && #[trigger] v[i].0@ == k;
            if i < v.len() - 1 {
                assert(v.drop_last()[i].0@ == k);
            }
        }
    }
}

proof fn lemma_request_map_update(
    v: Seq<(String, ImportRecordIdx)>,
    i: int,
    p: (String, ImportRecordIdx),
)
    requires
        unique_requests(v),
        0 <= i < v.len(),
        v[i].0@ == p.0@,
    ensures
        request_map(v.update(i, p)) == request_map(v).insert(p.0@, p.1),
        unique_requests(v.update(i, p)),
    decreases v.len(),
{
    let w = v.update(i, p);
    if i == v.len() - 1 {
        assert(w.drop_last() =~= v.drop_last());
        assert(request_map(w) =~= request_map(v).insert(p.0@, p.1));
    } else {
        let d = v.drop_last();
        assert(w.drop_last() =~= d.update(i, p));
        assert(unique_requests(d));
        lemma_request_map_update(d, i, p);
        assert(v.last().0@ != p.0@) by {
            assert(v[i].0@ != v[v.len() - 1].0@);
        }
        assert(request_map(w) =~= request_map(v).insert(p.0@, p.1));
    }
    assert forall|a: int, b: int| 0 <= a < b < w.len() implies #[trigger] w[a].0@ != #[trigger] w[b].0@ by {
        if a == i {
            assert(v[a].0@ != v[b].0@);
        } else if b == i {
            assert(v[a].0@ != v[b].0@);
        } else {
            assert(v[a].0@ != v[b].0@);
        }
    }
}

/// Maps `request` to `idx`, replacing an earlier mapping of the same request.
pub fn insert_request(v: &mut Vec<(String, ImportRecordIdx)>, request: String, idx: ImportRecordIdx)
    requires
        unique_requests(old(v)@),
    ensures
        request_map(final(v)@) == request_map(old(v)@).insert(request@, idx),
        unique_requests(final(v)@),
{
    let mut i: usize = 0;
    while i < v.len()
        invariant
            v@ == old(v)@,
            unique_requests(old(v)@),
            i <= v.len(),
            forall|j: int| 0 <= j < i ==> v@[j].0@ != request@,
        decreases v.len() - i,
    {
        if str_eq(v[i].0.as_str(), request.as_str()) {
            let ghost before = v@;
            let ghost p = (request, idx);
            v.set(i, (request, idx));
            proof {
                assert(v@ == before.update(i as int, p));
                lemma_request_map_update(before, i as int, p);
            }
            return;
        }
        i = i + 1;
    }
    let ghost before = v@;
    v.push((request, idx));
    proof {
        assert(v@.drop_last() =~= before);
        assert forall|a: int, b: int| 0 <= a < b < v@.len() implies #[trigger] v@[a].0@
            != #[trigger] v@[b].0@ by {
            if b == before.len() {
            } else {
                assert(before[a].0@ != before[b].0@);
            }
        }
    }
}

/// The requests named by the string elements of an array literal, in order.
pub open spec fn string_elements(els: Seq<ArrayExpressionElement>) -> Seq<Seq<char>>
    decreases els.len(),
{
    if els.len() == 0 {
        Seq::empty()
    } else {
        let rest = string_elements(els.drop_last());
        match els.last() {
            ArrayExpressionElement::StringLiteral(s) => rest.push(s.value@),
            ArrayExpressionElement::Other => rest,
        }
    }
}

proof fn lemma_string_elements_prefix(els: Seq<ArrayExpressionElement>, i: int)
    requires
        0 <= i <= els.len(),
    ensures
        string_elements(els.take(i)).len() <= string_elements(els).len(),
    decreases els.len() - i,
{
    if i < els.len() {
        lemma_string_elements_prefix(els, i + 1);
        assert(els.take(i + 1).drop_last() =~= els.take(i));
    } else {
        assert(els.take(i) =~= els);
    }
}

/// The dependencies that a call `import.meta.hot.accept(args...)` names:
/// the string or the string elements of the array in first place, when
/// there are exactly two arguments.
pub open spec fn accepted_requests(args: Seq<Argument>) -> Seq<Seq<char>> {
    if args.len() == 2 {
        match args[0] {
            Argument::StringLiteral(s) => seq![s.value@],
            Argument::ArrayExpression(a) => string_elements(a.elements@),
            Argument::Other => Seq::empty(),
        }
    } else {
        Seq::empty()
    }
}

/// `m` with `reqs[i]` mapped to `base + i`, in order.
pub open spec fn map_requests(m: Map<Seq<char>, ImportRecordIdx>, reqs: Seq<Seq<char>>, base: int) -> Map<
    Seq<char>,
    ImportRecordIdx,
>
    decreases reqs.len(),
{
    if reqs.len() == 0 {
        m
    } else {
        map_requests(m, reqs.drop_last(), base).insert(
            reqs.last(),
            (base + reqs.len() - 1) as ImportRecordIdx,
        )
    }
}

/// Options of the scanner.
#[derive(Debug, Clone, Copy)]
pub struct ScanOptions {
    pub hmr: bool,
}

impl ScanOptions {
    pub fn is_hmr_enabled(&self) -> (r: bool)
        ensures
            r == self.hmr,
    {
        self.hmr
    }
}

/// What the scanner has found so far.
#[derive(Debug, Clone)]
pub struct ScanResult {
    pub ast_usage: EcmaModuleAstUsage,
    pub import_records: Vec<RawImportRecord>,
    pub hmr_info: HmrInfo,
}

/// The AST scanner of a module.
#[derive(Debug, Clone)]
pub struct AstScanner {
    pub options: ScanOptions,
    pub result: ScanResult,
}

impl AstScanner {
    /// The scanner is consistent: its HMR facts name each accepted module
    /// and each request once.
    pub open spec fn wf(&self) -> bool {
        self.result.hmr_info.well_formed()
    }

    /// Records an import of `module_request` and returns its position.
    pub fn add_import_record(
        &mut self,
        module_request: &str,
        kind: ImportKind,
        span: Span,
        meta: ImportRecordMeta,
    ) -> (idx: ImportRecordIdx)
        requires
            old(self).result.import_records.len() < usize::MAX,
        ensures
            idx == old(self).result.import_records.len(),
            final(self).result.import_records@.len() == idx + 1,
            final(self).result.import_records@.take(idx as int)
                == old(self).result.import_records@,
            final(self).result.import_records@[idx as int].module_request@ == module_request@,
            final(self).result.import_records@[idx as int].kind == kind,
            final(self).result.import_records@[idx as int].span == span,
            final(self).result.import_records@[idx as int].meta == meta,
            final(self).options == old(self).options,
            final(self).result.ast_usage == old(self).result.ast_usage,
            final(self).result.hmr_info == old(self).result.hmr_info,
    {
        let idx = self.result.import_records.len();
        let rec = RawImportRecord {
            module_request: String::from_str(module_request),
            kind,
            span,
            meta,
        };
        self.result.import_records.push(rec);
        assert(self.result.import_records@.take(idx as int) =~= old(
            self,
        ).result.import_records@);
        idx
    }

    /// Records the dependencies named by a call to `import.meta.hot.accept`:
    /// with no argument or one, the module accepts its own updates; with a
    /// string or an array of strings and a callback, each string becomes an
    /// import record of kind `HotAccept`, and the request is mapped to it.
    /// Other calls, and any call while HMR is off, change nothing.
    pub fn try_extract_hmr_info_from_hot_accept_call(&mut self, call_expr: &CallExpression)
        requires
            old(self).wf(),
            old(self).result.import_records.len() + accepted_requests(call_expr.arguments@).len()
                < usize::MAX,
        ensures
            final(self).wf(),
            !old(self).options.hmr || !spec_is_import_meta_hot_accept(call_expr.callee)
                ==> *final(self) == *old(self),
            old(self).options.hmr && spec_is_import_meta_hot_accept(call_expr.callee) ==> {
                let reqs = accepted_requests(call_expr.arguments@);
                let n0 = old(self).result.import_records.len();
                &&& final(self).options == old(self).options
                &&& final(self).result.ast_usage == if call_expr.arguments.len() <= 1 {
                    EcmaModuleAstUsage { hmr_self_accept: true, ..old(self).result.ast_usage }
                } else {
                    old(self).result.ast_usage
                }
                &&& final(self).result.import_records.len() == n0 + reqs.len()
                &&& final(self).result.import_records@.take(n0 as int)
                    == old(self).result.import_records@
                &&& forall|i: int|
                    0 <= i < reqs.len() ==> {
                        let rec = #[trigger] final(self).result.import_records@[n0 + i];
                        &&& rec.module_request@ == reqs[i]
                        &&& rec.kind == ImportKind::HotAccept
                        &&& rec.span == call_expr.span
                        &&& rec.meta == ImportRecordMeta {
                            is_export_star: false,
                            is_top_level: false,
                        }
                    }
                &&& final(self).result.hmr_info.deps == old(self).result.hmr_info.deps
                &&& request_map(final(self).result.hmr_info.module_request_to_import_record_idx@)
                    == map_requests(
                    request_map(old(self).result.hmr_info.module_request_to_import_record_idx@),
                    reqs,
                    n0 as int,
                )
            },
    {
        if !self.options.is_hmr_enabled() {
            return;
        }
        if !call_expr.callee.is_import_meta_hot_accept() {
            return;
        }
        let ghost old_self = *self;
        let ghost n0 = self.result.import_records.len() as int;
        let args = &call_expr.arguments;
        if args.len() <= 1 {
            self.result.ast_usage.hmr_self_accept = true;
            assert(self.result.import_records@.take(n0) =~= old_self.result.import_records@);
            return;
        }
        if args.len() != 2 {
            assert(self.result.import_records@.take(n0) =~= old_self.result.import_records@);
            return;
        }
        match &args[0] {
            Argument::StringLiteral(string_literal) => {
                let idx = self.add_import_record(
                    string_literal.value.as_str(),
                    ImportKind::HotAccept,
                    call_expr.span,
                    ImportRecordMeta::empty(),
                );
                insert_request(
                    &mut self.result.hmr_info.module_request_to_import_record_idx,
                    string_literal.value.clone(),
                    idx,
                );
                proof {
                    let after = self.result.import_records@;
                    assert forall|j: int| 0 <= j < idx implies after[j]
                        == old_self.result.import_records@[j] by {
                        assert(after.take(idx as int)[j] == after[j]);
                    }
                    assert(after.take(n0) =~= old_self.result.import_records@);
                    let reqs = accepted_requests(args@);
                    assert(reqs =~= seq![string_literal.value@]);
                    assert(reqs.drop_last() =~= Seq::<Seq<char>>::empty());
                    assert(self.result.import_records@[n0 + 0]
                        == self.result.import_records@[idx as int]);
                    let m0 = request_map(old_self.result.hmr_info.module_request_to_import_record_idx@);
                    assert(map_requests(m0, reqs.drop_last(), n0) == m0);
                    assert(map_requests(m0, reqs, n0) == m0.insert(string_literal.value@, idx));
                }
            },
            Argument::ArrayExpression(array_expression) => {
                let els = &array_expression.elements;
                let mut i: usize = 0;
                while i < els.len()
                    invariant
                        i <= els.len(),
                        els@ == array_expression.elements@,
                        *args == call_expr.arguments,
                        args@[0] == Argument::ArrayExpression(*array_expression),
                        0 <= n0,
                        n0 + string_elements(els@).len() < usize::MAX,
                        self.wf(),
                        self.options == old_self.options,
                        self.result.ast_usage == old_self.result.ast_usage,
                        self.result.hmr_info.deps == old_self.result.hmr_info.deps,
                        self.result.import_records.len() == n0 + string_elements(
                            els@.take(i as int),
                        ).len(),
                        string_elements(els@.take(i as int)).len() <= i,
                        self.result.import_records@.take(n0) == old_self.result.import_records@,
                        forall|k: int|
                            0 <= k < string_elements(els@.take(i as int)).len() ==> {
                                let rec = #[trigger] self.result.import_records@[n0 + k];
                                &&& rec.module_request@ == string_elements(els@.take(i as int))[k]
                                &&& rec.kind == ImportKind::HotAccept
                                &&& rec.span == call_expr.span
                                &&& rec.meta == ImportRecordMeta {
                                    is_export_star: false,
                                    is_top_level: false,
                                }
                            },
                        request_map(self.result.hmr_info.module_request_to_import_record_idx@)
                            == map_requests(
                            request_map(
                                old_self.result.hmr_info.module_request_to_import_record_idx@,
                            ),
                            string_elements(els@.take(i as int)),
                            n0,
                        ),
                    decreases els.len() - i,
                {
                    let ghost prev = string_elements(els@.take(i as int));
                    let ghost recs_before = self.result.import_records@;
                    assert(els@.take(i + 1).drop_last() =~= els@.take(i as int));
                    proof {
                        lemma_string_elements_prefix(els@, i + 1);
                    }
                    match &els[i] {
                        ArrayExpressionElement::StringLiteral(lit) => {
                            let idx = self.add_import_record(
                                lit.value.as_str(),
                                ImportKind::HotAccept,
                                call_expr.span,
                                ImportRecordMeta::empty(),
                            );
                            insert_request(
                                &mut self.result.hmr_info.module_request_to_import_record_idx,
                                lit.value.clone(),
                                idx,
                            );
                            proof {
                                let after = self.result.import_records@;
                                assert forall|j: int| 0 <= j < idx implies after[j]
                                    == recs_before[j] by {
                                    assert(after.take(idx as int)[j] == after[j]);
                                }
                                let cur = string_elements(els@.take(i + 1));
                                assert(cur == prev.push(lit.value@));
                                assert(cur.drop_last() =~= prev);
                                assert(idx == n0 + prev.len());
                                assert forall|j: int| 0 <= j < n0 implies #[trigger] after.take(n0)[j]
                                    == recs_before.take(n0)[j] by {
                                    assert(after[j] == recs_before[j]);
                                }
                                assert(after.take(n0) =~= recs_before.take(n0));
                                assert forall|k: int| 0 <= k < cur.len() implies {
                                    let rec = #[trigger] self.result.import_records@[n0 + k];
                                    &&& rec.module_request@ == cur[k]
                                    &&& rec.kind == ImportKind::HotAccept
                                    &&& rec.span == call_expr.span
                                    &&& rec.meta == ImportRecordMeta {
                                        is_export_star: false,
                                        is_top_level: false,
                                    }
                                } by {
                                    if k < prev.len() {
                                        assert(0 <= n0 + k < idx);
                                        assert(after[n0 + k] == recs_before[n0 + k]);
                                    } else {
                                        assert(n0 + k == idx);
                                    }
                                }
                            }
                        },
                        ArrayExpressionElement::Other => {},
                    }
                    i = i + 1;
                }
                assert(els@.take(els.len() as int) =~= els@);
                assert(accepted_requests(args@) == string_elements(els@));
            },
            Argument::Other => {
                assert(self.result.import_records@.take(n0) =~= old_self.result.import_records@);
            },
        }
    }
}

/// A callee is `import.meta.hot.accept` exactly when it is the property
/// named `accept`, no more and no less, of the property `hot` of the meta
/// property `import.meta`.
pub proof fn lemma_hot_accept_callee(e: Expression)
    ensures
        spec_is_import_meta_hot_accept(e) <==> {
            &&& e matches Expression::StaticMemberExpression(a)
            &&& a.property.name@ == seq!['a', 'c', 'c', 'e', 'p', 't']
            &&& a.object matches Expression::StaticMemberExpression(h)
            &&& h.property.name@ == seq!['h', 'o', 't']
            &&& h.object matches Expression::MetaProperty(mp)
            &&& mp.meta.name@ == seq!['i', 'm', 'p', 'o', 'r', 't']
            &&& mp.property.name@ == seq!['m', 'e', 't', 'a']
        },
{
}

/// The dependencies a call `import.meta.hot.accept(a, b)` names: with
/// exactly two arguments, the first argument's string, or the strings among
/// the elements of its array, in order; nothing with any other number of
/// arguments or any other first argument.
pub proof fn lemma_accepted_requests(args: Seq<Argument>)
    ensures
        args.len() != 2 ==> accepted_requests(args) == Seq::<Seq<char>>::empty(),
        args.len() == 2 ==> match args[0] {
            Argument::StringLiteral(s) => accepted_requests(args) == seq![s.value@],
            Argument::ArrayExpression(a) => accepted_requests(args) == a.elements@.filter(
                |e: ArrayExpressionElement| e is StringLiteral,
            ).map_values(|e: ArrayExpressionElement| e->StringLiteral_0.value@),
            Argument::Other => accepted_requests(args) == Seq::<Seq<char>>::empty(),
        },
{
    if args.len() == 2 {
        if let Argument::ArrayExpression(a) = args[0] {
            lemma_string_elements_are_the_strings(a.elements@);
        }
    }
}

proof fn lemma_string_elements_are_the_strings(els: Seq<ArrayExpressionElement>)
    ensures
        string_elements(els) == els.filter(|e: ArrayExpressionElement| e is StringLiteral).map_values(
            |e: ArrayExpressionElement| e->StringLiteral_0.value@,
        ),
    decreases els.len(),
{
    reveal(Seq::filter);
    let p = |e: ArrayExpressionElement| e is StringLiteral;
    let f = |e: ArrayExpressionElement| e->StringLiteral_0.value@;
    if els.len() > 0 {
        lemma_string_elements_are_the_strings(els.drop_last());
        let rest = els.drop_last().filter(p);
        if p(els.last()) {
            assert(els.filter(p) == rest.push(els.last()));
            assert(rest.push(els.last()).map_values(f) =~= rest.map_values(f).push(f(els.last())));
        }
    } else {
        assert(els.filter(p).map_values(f) =~= Seq::<Seq<char>>::empty());
    }
}

/// Mapping requests from `base` on: the `j`-th request is mapped to record
/// `base + j` when no later request equals it (a later equal request
/// overrides an earlier one); keys that are not requested keep their
/// records.
pub proof fn lemma_map_requests(
    m: Map<Seq<char>, ImportRecordIdx>,
    reqs: Seq<Seq<char>>,
    base: int,
    k: Seq<char>,
    j: int,
)
    requires
        0 <= base,
        base + reqs.len() <= usize::MAX + 1,
    ensures
        map_requests(m, reqs, base).dom().contains(k) <==> (m.dom().contains(k) || reqs.contains(k)),
        !reqs.contains(k) && m.dom().contains(k) ==> map_requests(m, reqs, base)[k] == m[k],
        0 <= j < reqs.len() && reqs[j] == k && !reqs.subrange(j + 1, reqs.len() as int).contains(k)
            ==> map_requests(m, reqs, base)[k] == base + j,
    decreases reqs.len(),
{
    if reqs.len() > 0 {
        let d = reqs.drop_last();
        lemma_map_requests(m, d, base, k, j);
        if d.contains(k) {
            let i = choose|i: int| 0 <= i < d.len() && d[i] == k;
            assert(reqs[i] == k);
        }
        if reqs.contains(k) && reqs.last() != k {
            let i = choose|i: int| 0 <= i < reqs.len() && reqs[i] == k;
            assert(d[i] == k);
        }
        if 0 <= j < reqs.len() && reqs[j] == k && !reqs.subrange(j + 1, reqs.len() as int).contains(
            k,
        ) && j < reqs.len() - 1 {
            assert(reqs.subrange(j + 1, reqs.len() as int)[reqs.len() - 2 - j] == reqs.last());
            assert(reqs.last() != k);
            assert(d[j] == k);
            assert(d.subrange(j + 1, d.len() as int) =~= reqs.subrange(j + 1, reqs.len() as int).drop_last());
            let ds = d.subrange(j + 1, d.len() as int);
            let rs = reqs.subrange(j + 1, reqs.len() as int);
            if ds.contains(k) {
                let l = choose|l: int| 0 <= l < ds.len() && #[trigger] ds[l] == k;
                assert(rs[l] == k);
            }
        }
    }
}

} // verus!
