//! Normal (parsed ECMAScript) modules of the module graph, and the queries
//! that the linker and the HMR machinery ask of them.
use vstd::prelude::*;

use crate::hmr::unique_requests;
use crate::text::{lemma_sorted_unique, lex_le, sort_strings, sorted, starts_with, str_eq, views};

verus! {

/// Position of a module in the module table.
pub type ModuleIdx = usize;

/// Position of an import record in a module's import records.
pub type ImportRecordIdx = usize;

/// The resolved id of a module (its path, or a virtual id).
pub type ModuleId = String;

/// Byte range of a piece of source text.
#[derive(Debug, Clone, Copy, PartialEq, Eq)]
pub struct Span {
    pub start: u32,
    pub end: u32,
}

/// How an import record came to be.
#[derive(Debug, Clone, Copy, PartialEq, Eq)]
pub enum ImportKind {
    Import,
    DynamicImport,
    Require,
    AtImport,
    UrlImport,
    NewUrl,
    HotAccept,
}

/// Flags of an import record.
#[derive(Debug, Clone, Copy, PartialEq, Eq)]
pub struct ImportRecordMeta {
    /// The record comes from `export * from '...'`.
    pub is_export_star: bool,
    /// The record sits at the top level of the module.
    pub is_top_level: bool,
}

impl ImportRecordMeta {
    /// No flag set.
    pub fn empty() -> (r: Self)
        ensures
            !r.is_export_star,
            !r.is_top_level,
    {
        ImportRecordMeta { is_export_star: false, is_top_level: false }
    }
}

/// An import record as the scanner produces it, before resolution.
#[derive(Debug, Clone)]
pub struct RawImportRecord {
    pub module_request: String,
    pub kind: ImportKind,
    pub span: Span,
    pub meta: ImportRecordMeta,
}

/// An import record whose request has been resolved to a module.
#[derive(Debug, Clone)]
pub struct ImportRecord {
    pub module_request: String,
    pub kind: ImportKind,
    pub resolved_module: ModuleIdx,
    pub meta: ImportRecordMeta,
}

/// Flags of an ECMAScript module view.
#[derive(Debug, Clone, Copy, PartialEq, Eq)]
pub struct EcmaViewMeta {
    pub included: bool,
    pub star_export: bool,
}

impl EcmaViewMeta {
    pub fn is_included(&self) -> (r: bool)
        ensures
            r == self.included,
    {
        self.included
    }

    pub fn has_star_export(&self) -> (r: bool)
        ensures
            r == self.star_export,
    {
        self.star_export
    }
}

/// What the scanner saw a module's AST use.
#[derive(Debug, Clone, Copy, PartialEq, Eq)]
pub struct EcmaModuleAstUsage {
    pub module_ref: bool,
    pub exports_ref: bool,
    pub es_module_flag: bool,
    pub hmr_self_accept: bool,
}

/// How a module was written, as far as the file name and `package.json` tell.
#[derive(Debug, Clone, Copy, PartialEq, Eq)]
pub enum ModuleDefFormat {
    Unknown,
    Cjs,
    Cts,
    CjsPackageJson,
    EsmMjs,
    EsmMts,
    EsmPackageJson,
}

impl ModuleDefFormat {
    pub open spec fn spec_is_esm(self) -> bool {
        self is EsmMjs || self is EsmMts || self is EsmPackageJson
    }

    pub open spec fn spec_is_commonjs(self) -> bool {
        self is Cjs || self is Cts || self is CjsPackageJson
    }

    /// `.mjs`, `.mts`, or `"type": "module"` in `package.json`.
    pub fn is_esm(&self) -> (r: bool)
        ensures
            r == self.spec_is_esm(),
    {
        match self {
            ModuleDefFormat::EsmMjs | ModuleDefFormat::EsmMts | ModuleDefFormat::EsmPackageJson => {
                true
            },
            _ => false,
        }
    }

    /// `.cjs`, `.cts`, or `"type": "commonjs"` in `package.json`.
    pub fn is_commonjs(&self) -> (r: bool)
        ensures
            r == self.spec_is_commonjs(),
    {
        match self {
            ModuleDefFormat::Cjs | ModuleDefFormat::Cts | ModuleDefFormat::CjsPackageJson => true,
            _ => false,
        }
    }
}

/// The module system a module's exports were found to use.
#[derive(Debug, Clone, Copy, PartialEq, Eq)]
pub enum ExportsKind {
    Esm,
    CommonJs,
    Unknown,
}

/// How an ES module importer sees a CommonJS module's exports.
#[derive(Debug, Clone, Copy, PartialEq, Eq)]
pub enum Interop {
    Babel,
    Node,
}

/// The type a module's content is treated as.
#[derive(Debug, Clone, PartialEq, Eq)]
pub enum ModuleType {
    Js,
    Jsx,
    Ts,
    Tsx,
    Json,
    Text,
    Base64,
    Dataurl,
    Binary,
    Empty,
    Css,
    Asset,
    Custom(String),
}

/// A top-level statement, as the tree shaker sees it.
#[derive(Debug, Clone)]
pub struct StmtInfo {
    pub is_included: bool,
    pub side_effect: bool,
    pub debug_label: Option<String>,
}

/// A statement, as a debug dump of tree shaking shows it.
#[derive(Debug, Clone)]
pub struct DebugStmtInfoForTreeShaking {
    pub is_included: bool,
    pub side_effect: bool,
    pub source: String,
}

/// The label a debug dump gives a statement without a debug label.
pub open spec fn noop_label() -> Seq<char> {
    seq!['<', 'N', 'o', 'o', 'p', '>']
}

impl StmtInfo {
    /// The debug form of this statement: its label, or `<Noop>` when it has none.
    pub fn to_debug_stmt_info_for_tree_shaking(&self) -> (r: DebugStmtInfoForTreeShaking)
        ensures
            r.is_included == self.is_included,
            r.side_effect == self.side_effect,
            r.source@ == match self.debug_label {
                Some(l) => l@,
                None => noop_label(),
            },
    {
        let source = match &self.debug_label {
            Some(l) => l.clone(),
            None => {
                let s = String::from_str("<Noop>");
                proof {
                    reveal_strlit("<Noop>");
                }
                assert(s@ =~= noop_label());
                s
            },
        };
        DebugStmtInfoForTreeShaking {
            is_included: self.is_included,
            side_effect: self.side_effect,
            source,
        }
    }
}

/// HMR facts about a module.
#[derive(Debug, Clone)]
pub struct HmrInfo {
    /// Modules whose updates this module accepts, each once.
    pub deps: Vec<ModuleId>,
    /// The request of each `import.meta.hot.accept` dependency and the
    /// import record it produced, each request once.
    pub module_request_to_import_record_idx: Vec<(String, ImportRecordIdx)>,
}

impl HmrInfo {
    /// Each accepted module occurs once, and each request once.
    pub open spec fn well_formed(&self) -> bool {
        &&& views(self.deps@).no_duplicates()
        &&& unique_requests(self.module_request_to_import_record_idx@)
    }
}

/// The ECMAScript facts of a module.
#[derive(Debug, Clone)]
pub struct EcmaView {
    pub source: String,
    pub import_records: Vec<ImportRecord>,
    pub meta: EcmaViewMeta,
    pub stmt_infos: Vec<StmtInfo>,
    /// The names that the module itself exports, each once, in the order
    /// they were declared.
    pub named_exports: Vec<String>,
    pub exports_kind: ExportsKind,
    pub def_format: ModuleDefFormat,
    pub importers: Vec<ModuleId>,
    pub dynamic_importers: Vec<ModuleId>,
    pub imported_ids: Vec<ModuleId>,
    pub dynamically_imported_ids: Vec<ModuleId>,
    pub ast_usage: EcmaModuleAstUsage,
    pub hmr_info: HmrInfo,
}

impl EcmaView {
    /// Each export name occurs once, and the HMR facts are well formed.
    pub open spec fn well_formed(&self) -> bool {
        &&& views(self.named_exports@).no_duplicates()
        &&& self.hmr_info.well_formed()
    }
}

/// The CSS facts of a module.
#[derive(Debug, Clone)]
pub struct CssView {
    pub source: String,
}

/// The asset facts of a module.
#[derive(Debug, Clone)]
pub struct AssetView {
    pub source: Vec<u8>,
}

/// What the resolver returned for a module.
#[derive(Debug, Clone)]
pub struct ResolvedId {
    pub id: String,
    pub module_def_format: ModuleDefFormat,
    pub is_external: bool,
}

/// A module whose source the bundler parsed.
#[derive(Debug, Clone)]
pub struct NormalModule {
    pub exec_order: u32,
    pub idx: ModuleIdx,
    pub is_user_defined_entry: bool,
    pub id: ModuleId,
    /// `stable_id` is calculated based on `id` to be stable across machine and os.
    pub stable_id: String,
    /// Pretty resource id for debug.
    pub debug_id: String,
    pub repr_name: String,
    pub module_type: ModuleType,
    pub ecma_view: EcmaView,
    pub css_view: Option<CssView>,
    pub asset_view: Option<AssetView>,
    pub originative_resolved_id: ResolvedId,
}

/// A module left to the runtime to load.
#[derive(Debug, Clone)]
pub struct ExternalModule {
    pub idx: ModuleIdx,
    pub id: String,
}

/// An entry of the module table.
#[derive(Debug, Clone)]
pub enum Module {
    Normal(Box<NormalModule>),
    External(Box<ExternalModule>),
}

impl Module {
    pub fn as_normal(&self) -> (r: Option<&NormalModule>)
        ensures
            match self {
                Module::Normal(m) => r == Some(&**m),
                Module::External(_) => r is None,
            },
    {
        match self {
            Module::Normal(m) => Some(&**m),
            Module::External(_) => None,
        }
    }
}

/// A tree-shaking debug dump of a module.
#[derive(Debug, Clone)]
pub struct DebugNormalModuleForTreeShaking {
    pub id: String,
    pub is_included: bool,
    pub stmt_infos: Vec<DebugStmtInfoForTreeShaking>,
}

/// What plugins learn of a module.
#[derive(Debug, Clone)]
pub struct ModuleInfo {
    pub code: Option<String>,
    pub id: ModuleId,
    pub is_entry: bool,
    pub importers: Vec<ModuleId>,
    pub dynamic_importers: Vec<ModuleId>,
    pub imported_ids: Vec<ModuleId>,
    pub dynamically_imported_ids: Vec<ModuleId>,
    pub exports: Vec<String>,
}

/// Where sourcemaps go.
#[derive(Debug, Clone, Copy, PartialEq, Eq)]
pub enum SourceMapType {
    File,
    Inline,
    Hidden,
}

/// What happens to legal comments.
#[derive(Debug, Clone, Copy, PartialEq, Eq)]
pub enum LegalComments {
    /// Legal comments are dropped.
    Omit,
    /// Legal comments stay where they are.
    Inline,
}

/// The bundler options that rendering a module reads.
#[derive(Debug, Clone, Copy, PartialEq, Eq)]
pub struct NormalizedBundlerOptions {
    pub sourcemap: Option<SourceMapType>,
    pub legal_comments: LegalComments,
}

/// How a module's AST is printed back to code.
#[derive(Debug, Clone)]
pub struct PrintOptions {
    pub sourcemap: bool,
    pub filename: String,
    pub print_legal_comments: bool,
}

/// Targets of the `export *` records among `recs`, in order.
pub open spec fn star_targets(recs: Seq<ImportRecord>) -> Seq<ModuleIdx>
    decreases recs.len(),
{
    if recs.len() == 0 {
        Seq::empty()
    } else {
        let rest = star_targets(recs.drop_last());
        if recs.last().meta.is_export_star {
            rest.push(recs.last().resolved_module)
        } else {
            rest
        }
    }
}

/// Number of `export *` records among `recs`.
pub open spec fn star_count(recs: Seq<ImportRecord>) -> nat {
    star_targets(recs).len()
}

/// Number of `export *` records among raw records.
pub open spec fn raw_star_count(recs: Seq<RawImportRecord>) -> nat
    decreases recs.len(),
{
    if recs.len() == 0 {
        0
    } else {
        raw_star_count(recs.drop_last()) + if recs.last().meta.is_export_star {
            1nat
        } else {
            0nat
        }
    }
}

/// Positions `i < n` of `export *` records that resolve to an external module.
pub open spec fn external_star_positions(
    recs: Seq<ImportRecord>,
    modules: Seq<Module>,
    n: int,
) -> Seq<ImportRecordIdx>
    decreases n,
{
    if n <= 0 {
        Seq::empty()
    } else {
        let rest = external_star_positions(recs, modules, n - 1);
        let rec = recs[n - 1];
        if rec.meta.is_export_star && modules[rec.resolved_module as int] is External {
            rest.push((n - 1) as usize)
        } else {
            rest
        }
    }
}

/// The characters `\0`.
pub open spec fn nul_prefix() -> Seq<char> {
    seq!['\0']
}

/// The characters `rolldown:`.
pub open spec fn rolldown_prefix() -> Seq<char> {
    seq!['r', 'o', 'l', 'l', 'd', 'o', 'w', 'n', ':']
}

/// `s` begins with `p`.
pub open spec fn has_prefix(s: Seq<char>, p: Seq<char>) -> bool {
    p.len() <= s.len() && s.subrange(0, p.len() as int) == p
}

/// A sequence of `n` copies of `*`.
pub open spec fn stars(n: nat) -> Seq<Seq<char>> {
    Seq::new(n, |i: int| seq!['*'])
}

/// Copies a list of strings.
pub fn clone_strings(v: &Vec<String>) -> (r: Vec<String>)
    ensures
        r@ == v@,
{
    let mut r: Vec<String> = Vec::new();
    let mut i: usize = 0;
    while i < v.len()
        invariant
            i <= v.len(),
            r@ == v@.take(i as int),
        decreases v.len() - i,
    {
        r.push(v[i].clone());
        assert(v@.take(i + 1) =~= v@.take(i as int).push(v@[i as int]));
        i = i + 1;
    }
    assert(v@.take(v.len() as int) =~= v@);
    r
}

/// A sorted copy of a list of strings.
fn sorted_copy(v: &Vec<String>) -> (r: Vec<String>)
    ensures
        views(r@).to_multiset() == views(v@).to_multiset(),
        sorted(views(r@)),
{
    let mut r = clone_strings(v);
    sort_strings(&mut r);
    r
}

impl NormalModule {
    pub open spec fn spec_has_star_export(&self) -> bool {
        self.ecma_view.meta.star_export
    }

    /// Targets of this module's `export *` records, in record order; empty
    /// when the module is not marked as having a star export.
    pub open spec fn spec_star_export_module_ids(&self) -> Seq<ModuleIdx> {
        if self.spec_has_star_export() {
            star_targets(self.ecma_view.import_records@)
        } else {
            Seq::empty()
        }
    }

    /// The modules that this module re-exports with `export * from`.
    pub fn star_export_module_ids(&self) -> (r: Vec<ModuleIdx>)
        ensures
            r@ == self.spec_star_export_module_ids(),
    {
        let mut r: Vec<ModuleIdx> = Vec::new();
        if self.has_star_export() {
            let recs = &self.ecma_view.import_records;
            let mut i: usize = 0;
            while i < recs.len()
                invariant
                    i <= recs.len(),
                    r@ == star_targets(recs@.take(i as int)),
                decreases recs.len() - i,
            {
                assert(recs@.take(i + 1).drop_last() =~= recs@.take(i as int));
                if recs[i].meta.is_export_star {
                    r.push(recs[i].resolved_module);
                }
                i = i + 1;
            }
            assert(recs@.take(recs.len() as int) =~= recs@);
        }
        r
    }

    pub fn has_star_export(&self) -> (r: bool)
        ensures
            r == self.spec_has_star_export(),
    {
        self.ecma_view.meta.has_star_export()
    }

    /// The tree-shaking debug dump: the module's name for humans, whether it
    /// is included, and each statement's debug form.
    pub fn to_debug_normal_module_for_tree_shaking(&self) -> (r: DebugNormalModuleForTreeShaking)
        ensures
            r.id@ == self.repr_name@,
            r.is_included == self.ecma_view.meta.included,
            r.stmt_infos.len() == self.ecma_view.stmt_infos.len(),
            forall|i: int|
                0 <= i < r.stmt_infos.len() ==> {
                    let s = #[trigger] self.ecma_view.stmt_infos@[i];
                    let d = r.stmt_infos@[i];
                    &&& d.is_included == s.is_included
                    &&& d.side_effect == s.side_effect
                    &&& d.source@ == match s.debug_label {
                        Some(l) => l@,
                        None => noop_label(),
                    }
                },
    {
        let infos = &self.ecma_view.stmt_infos;
        let mut out: Vec<DebugStmtInfoForTreeShaking> = Vec::new();
        let mut i: usize = 0;
        while i < infos.len()
            invariant
                i <= infos.len(),
                out.len() == i,
                forall|j: int|
                    0 <= j < i ==> {
                        let s = #[trigger] infos@[j];
                        let d = out@[j];
                        &&& d.is_included == s.is_included
                        &&& d.side_effect == s.side_effect
                        &&& d.source@ == match s.debug_label {
                            Some(l) => l@,
                            None => noop_label(),
                        }
                    },
            decreases infos.len() - i,
        {
            out.push(infos[i].to_debug_stmt_info_for_tree_shaking());
            i = i + 1;
        }
        DebugNormalModuleForTreeShaking {
            id: self.repr_name.clone(),
            is_included: self.ecma_view.meta.is_included(),
            stmt_infos: out,
        }
    }

    /// The id begins with `\0` or with `rolldown:`.
    pub open spec fn spec_is_virtual(&self) -> bool {
        has_prefix(self.id@, nul_prefix()) || has_prefix(self.id@, rolldown_prefix())
    }

    /// The runtime module and modules whose id starts with `\0` get no sourcemap.
    pub fn is_virtual(&self) -> (r: bool)
        ensures
            r == self.spec_is_virtual(),
    {
        proof {
            reveal_strlit("\0");
            reveal_strlit("rolldown:");
        }
        let a = starts_with(self.id.as_str(), "\0");
        assert("\0"@ =~= nul_prefix());
        let b = starts_with(self.id.as_str(), "rolldown:");
        assert("rolldown:"@ =~= rolldown_prefix());
        a || b
    }

    /// How rendering prints this module: with a sourcemap when sourcemaps
    /// are on and the module is not virtual, named by its id, keeping legal
    /// comments when they are to stay inline.
    pub fn render_print_options(&self, options: &NormalizedBundlerOptions) -> (r: PrintOptions)
        ensures
            r.sourcemap == (options.sourcemap is Some && !self.spec_is_virtual()),
            r.filename@ == self.id@,
            r.print_legal_comments == (options.legal_comments == LegalComments::Inline),
    {
        let enable_sourcemap = options.sourcemap.is_some() && !self.is_virtual();
        let print_legal_comments = match options.legal_comments {
            LegalComments::Inline => true,
            LegalComments::Omit => false,
        };
        PrintOptions { sourcemap: enable_sourcemap, filename: self.id.clone(), print_legal_comments }
    }

    /// Positions of this module's `export *` records that resolve to an
    /// external module, ascending.
    pub fn star_exports_from_external_modules(&self, modules: &Vec<Module>) -> (r: Vec<
        ImportRecordIdx,
    >)
        requires
            forall|i: int|
                0 <= i < self.ecma_view.import_records.len()
                    && #[trigger] self.ecma_view.import_records@[i].meta.is_export_star
                    ==> self.ecma_view.import_records@[i].resolved_module < modules.len(),
        ensures
            r@ == external_star_positions(
                self.ecma_view.import_records@,
                modules@,
                self.ecma_view.import_records.len() as int,
            ),
    {
        let recs = &self.ecma_view.import_records;
        let mut r: Vec<ImportRecordIdx> = Vec::new();
        let mut i: usize = 0;
        while i < recs.len()
            invariant
                i <= recs.len(),
                forall|j: int|
                    0 <= j < recs.len() && #[trigger] recs@[j].meta.is_export_star
                        ==> recs@[j].resolved_module < modules.len(),
                r@ == external_star_positions(recs@, modules@, i as int),
            decreases recs.len() - i,
        {
            let rec = &recs[i];
            if rec.meta.is_export_star {
                match &modules[rec.resolved_module] {
                    Module::External(_) => {
                        r.push(i);
                    },
                    Module::Normal(_) => {},
                }
            }
            i = i + 1;
        }
        r
    }

    pub open spec fn spec_interop(&self, importee: &NormalModule) -> Option<Interop> {
        if importee.ecma_view.exports_kind is CommonJs {
            if self.ecma_view.def_format.spec_is_esm() {
                Some(Interop::Node)
            } else {
                Some(Interop::Babel)
            }
        } else {
            None
        }
    }

    /// How this module imports `importee`: `None` unless `importee` is
    /// CommonJS; then Node-style when this module follows the Node.js ESM
    /// spec, Babel-style otherwise.
    pub fn interop(&self, importee: &NormalModule) -> (r: Option<Interop>)
        ensures
            r == self.spec_interop(importee),
    {
        match importee.ecma_view.exports_kind {
            ExportsKind::CommonJs => {
                if self.ecma_view.def_format.is_esm() {
                    Some(Interop::Node)
                } else {
                    Some(Interop::Babel)
                }
            },
            _ => None,
        }
    }

    pub fn should_consider_node_esm_spec_for_static_import(&self) -> (r: bool)
        ensures
            r == self.ecma_view.def_format.spec_is_esm(),
    {
        self.ecma_view.def_format.is_esm()
    }

    /// Dynamic imports in CommonJS follow Node.js too.
    pub fn should_consider_node_esm_spec_for_dynamic_import(&self) -> (r: bool)
        ensures
            r == (self.ecma_view.def_format.spec_is_esm()
                || self.ecma_view.def_format.spec_is_commonjs()),
    {
        self.ecma_view.def_format.is_esm() || self.ecma_view.def_format.is_commonjs()
    }

    pub fn is_included(&self) -> (r: bool)
        ensures
            r == self.ecma_view.meta.included,
    {
        self.ecma_view.meta.is_included()
    }

    pub fn is_hmr_self_accepting_module(&self) -> (r: bool)
        ensures
            r == self.ecma_view.ast_usage.hmr_self_accept,
    {
        self.ecma_view.ast_usage.hmr_self_accept
    }

    /// Whether `module_id` is among the dependencies whose updates this module accepts.
    pub fn can_accept_hmr_dependency_for(&self, module_id: &ModuleId) -> (r: bool)
        ensures
            r == (exists|j: int|
                0 <= j < self.ecma_view.hmr_info.deps.len()
                    && #[trigger] self.ecma_view.hmr_info.deps@[j]@ == module_id@),
    {
        let deps = &self.ecma_view.hmr_info.deps;
        let mut i: usize = 0;
        while i < deps.len()
            invariant
                deps@ == self.ecma_view.hmr_info.deps@,
                i <= deps.len(),
                forall|j: int| 0 <= j < i ==> deps@[j]@ != module_id@,
            decreases deps.len() - i,
        {
            if str_eq(deps[i].as_str(), module_id.as_str()) {
                assert(deps@[i as int]@ == module_id@);
                return true;
            }
            i = i + 1;
        }
        false
    }

    /// The exports a plugin sees: the module's own export names, then one
    /// `*` for each `export *` record (of `raw_import_records` when given,
    /// else of the module's own records).
    pub open spec fn spec_module_info_exports(
        &self,
        raw_import_records: Option<Seq<RawImportRecord>>,
    ) -> Seq<Seq<char>> {
        views(self.ecma_view.named_exports@) + stars(
            match raw_import_records {
                Some(r) => raw_star_count(r),
                None => star_count(self.ecma_view.import_records@),
            },
        )
    }

    /// `r` is the module as plugins see it: its code, id and entry flag,
    /// its importers and dynamic importers sorted, the ids it imports, and
    /// its exports (given the raw import records, if any).
    pub open spec fn is_module_info(
        &self,
        raw_import_records: Option<Seq<RawImportRecord>>,
        r: ModuleInfo,
    ) -> bool {
        &&& r.code matches Some(c) && c@ == self.ecma_view.source@
        &&& r.id@ == self.id@
        &&& r.is_entry == self.is_user_defined_entry
        &&& views(r.importers@).to_multiset() == views(self.ecma_view.importers@).to_multiset()
        &&& sorted(views(r.importers@))
        &&& views(r.dynamic_importers@).to_multiset() == views(
            self.ecma_view.dynamic_importers@,
        ).to_multiset()
        &&& sorted(views(r.dynamic_importers@))
        &&& r.imported_ids@ == self.ecma_view.imported_ids@
        &&& r.dynamically_imported_ids@ == self.ecma_view.dynamically_imported_ids@
        &&& views(r.exports@) == self.spec_module_info_exports(raw_import_records)
    }

    /// The module as plugins see it; see `is_module_info`.
    pub fn to_module_info(&self, raw_import_records: Option<&Vec<RawImportRecord>>) -> (r:
        ModuleInfo)
        ensures
            self.is_module_info(
                match raw_import_records {
                    Some(r) => Some(r@),
                    None => None,
                },
                r,
            ),
            self.ecma_view.well_formed() ==> views(r.exports@).take(
                self.ecma_view.named_exports.len() as int,
            ).no_duplicates(),
    {
        let mut exports = clone_strings(&self.ecma_view.named_exports);
        let ghost names = views(exports@);
        let n = match raw_import_records {
            Some(e) => count_raw_star_records(e),
            None => count_star_records(&self.ecma_view.import_records),
        };
        let mut k: usize = 0;
        while k < n
            invariant
                k <= n,
                views(exports@) == names + stars(k as nat),
            decreases n - k,
        {
            let s = String::from_str("*");
            proof {
                reveal_strlit("*");
                assert(s@ =~= seq!['*']);
                assert(views(exports@.push(s)) =~= views(exports@).push(s@));
                assert(names + stars((k + 1) as nat) =~= (names + stars(k as nat)).push(s@));
            }
            exports.push(s);
            k = k + 1;
        }
        ModuleInfo {
            code: Some(self.ecma_view.source.clone()),
            id: self.id.clone(),
            is_entry: self.is_user_defined_entry,
            importers: sorted_copy(&self.ecma_view.importers),
            dynamic_importers: sorted_copy(&self.ecma_view.dynamic_importers),
            imported_ids: clone_strings(&self.ecma_view.imported_ids),
            dynamically_imported_ids: clone_strings(&self.ecma_view.dynamically_imported_ids),
            exports,
        }
    }
}

/// The raw import records shape the module info only through the number
/// of `export *` records among them: two lists with as many give the same
/// module info.
pub proof fn lemma_module_info_depends_on_star_count(
    m: NormalModule,
    raw1: Seq<RawImportRecord>,
    raw2: Seq<RawImportRecord>,
    info1: ModuleInfo,
    info2: ModuleInfo,
)
    requires
        m.is_module_info(Some(raw1), info1),
        m.is_module_info(Some(raw2), info2),
        raw_star_count(raw1) == raw_star_count(raw2),
    ensures
        info1.code->0@ == info2.code->0@,
        info1.id@ == info2.id@,
        info1.is_entry == info2.is_entry,
        views(info1.importers@) == views(info2.importers@),
        views(info1.dynamic_importers@) == views(info2.dynamic_importers@),
        info1.imported_ids@ == info2.imported_ids@,
        info1.dynamically_imported_ids@ == info2.dynamically_imported_ids@,
        views(info1.exports@) == views(info2.exports@),
{
    lemma_sorted_unique(views(info1.importers@), views(info2.importers@));
    lemma_sorted_unique(views(info1.dynamic_importers@), views(info2.dynamic_importers@));
}

fn count_star_records(recs: &Vec<ImportRecord>) -> (n: usize)
    ensures
        n == star_count(recs@),
{
    let mut n: usize = 0;
    let mut i: usize = 0;
    while i < recs.len()
        invariant
            i <= recs.len(),
            n == star_count(recs@.take(i as int)),
            n <= i,
        decreases recs.len() - i,
    {
        assert(recs@.take(i + 1).drop_last() =~= recs@.take(i as int));
        if recs[i].meta.is_export_star {
            n = n + 1;
        }
        i = i + 1;
    }
    assert(recs@.take(recs.len() as int) =~= recs@);
    n
}

fn count_raw_star_records(recs: &Vec<RawImportRecord>) -> (n: usize)
    ensures
        n == raw_star_count(recs@),
{
    let mut n: usize = 0;
    let mut i: usize = 0;
    while i < recs.len()
        invariant
            i <= recs.len(),
            n == raw_star_count(recs@.take(i as int)),
            n <= i,
        decreases recs.len() - i,
    {
        assert(recs@.take(i + 1).drop_last() =~= recs@.take(i as int));
        if recs[i].meta.is_export_star {
            n = n + 1;
        }
        i = i + 1;
    }
    assert(recs@.take(recs.len() as int) =~= recs@);
    n
}

/// A module importing a CommonJS module does so Node-style exactly when it
/// is itself ESM in the Node.js sense (`.mjs`, `.mts`, or `"type": "module"`
/// in `package.json`), which is when it follows the Node.js ESM spec for
/// static imports; otherwise Babel-style. A module that is not CommonJS needs
/// no interop.
pub proof fn lemma_interop_follows_node_esm_rule(importer: NormalModule, importee: NormalModule)
    ensures
        importee.ecma_view.exports_kind is CommonJs ==> {
            let f = importer.ecma_view.def_format;
            &&& (importer.spec_interop(&importee) == Some(Interop::Node)) <==> (f is EsmMjs
                || f is EsmMts || f is EsmPackageJson)
            &&& (importer.spec_interop(&importee) == Some(Interop::Babel)) <==> !(f is EsmMjs
                || f is EsmMts || f is EsmPackageJson)
            &&& (importer.spec_interop(&importee) == Some(Interop::Node)) <==> f.spec_is_esm()
        },
        !(importee.ecma_view.exports_kind is CommonJs) ==> importer.spec_interop(&importee) is None,
{
}

/// The `export *` targets of a list of records are the resolved modules of
/// its records marked `is_export_star`, in record order; their number is
/// the number of such records, for resolved and raw records alike.
pub proof fn lemma_star_records_by_flag(recs: Seq<ImportRecord>, raw: Seq<RawImportRecord>)
    ensures
        star_targets(recs) == recs.filter(|r: ImportRecord| r.meta.is_export_star).map_values(
            |r: ImportRecord| r.resolved_module,
        ),
        star_count(recs) == recs.filter(|r: ImportRecord| r.meta.is_export_star).len(),
        raw_star_count(raw) == raw.filter(|r: RawImportRecord| r.meta.is_export_star).len(),
    decreases recs.len() + raw.len(),
{
    reveal(Seq::filter);
    let p = |r: ImportRecord| r.meta.is_export_star;
    let q = |r: RawImportRecord| r.meta.is_export_star;
    let f = |r: ImportRecord| r.resolved_module;
    if recs.len() > 0 {
        lemma_star_records_by_flag(recs.drop_last(), raw);
        let rest = recs.drop_last().filter(p);
        if p(recs.last()) {
            assert(recs.filter(p) == rest.push(recs.last()));
            assert(rest.push(recs.last()).map_values(f) =~= rest.map_values(f).push(recs.last().resolved_module));
        }
    } else {
        assert(recs.filter(p).map_values(f) =~= Seq::<ModuleIdx>::empty());
    }
    if raw.len() > 0 {
        lemma_star_records_by_flag(recs, raw.drop_last());
    }
}

/// The exports a plugin sees are the module's own export names, in order,
/// followed by one `*` for each record marked `is_export_star` (among the
/// raw records when they are given, else among the module's own records).
pub proof fn lemma_module_info_exports(
    m: NormalModule,
    raw: Option<Seq<RawImportRecord>>,
    info: ModuleInfo,
)
    requires
        m.is_module_info(raw, info),
    ensures
        ({
            let named = m.ecma_view.named_exports@;
            let k = match raw {
                Some(r) => r.filter(|x: RawImportRecord| x.meta.is_export_star).len(),
                None => m.ecma_view.import_records@.filter(|x: ImportRecord| x.meta.is_export_star).len(),
            };
            &&& info.exports.len() == named.len() + k
            &&& forall|i: int| 0 <= i < named.len() ==> #[trigger] info.exports@[i]@ == named[i]@
            &&& forall|i: int| named.len() <= i < info.exports.len() ==> #[trigger] info.exports@[i]@
                == seq!['*']
        }),
{
    match raw {
        Some(r) => lemma_star_records_by_flag(m.ecma_view.import_records@, r),
        None => lemma_star_records_by_flag(m.ecma_view.import_records@, Seq::empty()),
    }
    let named = m.ecma_view.named_exports@;
    let e = views(info.exports@);
    let k = match raw {
        Some(r) => raw_star_count(r),
        None => star_count(m.ecma_view.import_records@),
    };
    assert(e == views(named) + stars(k));
    assert(e.len() == info.exports.len());
    assert forall|i: int| 0 <= i < named.len() implies #[trigger] info.exports@[i]@ == named[i]@ by {
        assert(e[i] == info.exports@[i]@);
        assert((views(named) + stars(k))[i] == views(named)[i]);
    }
    assert forall|i: int| named.len() <= i < info.exports.len() implies #[trigger] info.exports@[i]@
        == seq!['*'] by {
        assert(e[i] == info.exports@[i]@);
        assert((views(named) + stars(k))[i] == stars(k)[i - named.len()]);
    }
}

/// A module is virtual exactly when its id begins with the character `\0`
/// or with `rolldown:`.
pub proof fn lemma_virtual_ids(m: NormalModule)
    ensures
        m.spec_is_virtual() <==> ((m.id@.len() > 0 && m.id@[0] == '\0') || (m.id@.len() >= 9
            && m.id@.subrange(0, 9) == seq!['r', 'o', 'l', 'l', 'd', 'o', 'w', 'n', ':'])),
{
    if m.id@.len() > 0 && m.id@[0] == '\0' {
        assert(m.id@.subrange(0, 1) =~= seq!['\0']);
    }
    if has_prefix(m.id@, nul_prefix()) {
        assert(m.id@.subrange(0, 1)[0] == m.id@[0]);
    }
}

/// The formats of module definitions: ESM is `.mjs`, `.mts` or
/// `"type": "module"`; CommonJS is `.cjs`, `.cts` or `"type": "commonjs"`;
/// a module follows the Node.js spec for dynamic imports exactly when its
/// format is known.
pub proof fn lemma_module_def_formats(f: ModuleDefFormat)
    ensures
        f.spec_is_esm() <==> (f is EsmMjs || f is EsmMts || f is EsmPackageJson),
        f.spec_is_commonjs() <==> (f is Cjs || f is Cts || f is CjsPackageJson),
        (f.spec_is_esm() || f.spec_is_commonjs()) <==> !(f is Unknown),
{
}

/// The positions of `export *` records that resolve to an external module
/// are, in ascending order, exactly the positions below `n` whose record is
/// marked `is_export_star` and whose resolved module is external.
pub proof fn lemma_external_star_positions(recs: Seq<ImportRecord>, modules: Seq<Module>, n: int)
    requires
        0 <= n <= usize::MAX + 1,
    ensures
        external_star_positions(recs, modules, n) == Seq::new(n as nat, |i: int| i as usize).filter(
            |i: usize|
                recs[i as int].meta.is_export_star && modules[recs[i as int].resolved_module as int] is External,
        ),
    decreases n,
{
    reveal(Seq::filter);
    let all = Seq::new(n as nat, |i: int| i as usize);
    if n > 0 {
        lemma_external_star_positions(recs, modules, n - 1);
        assert(all.drop_last() =~= Seq::new((n - 1) as nat, |i: int| i as usize));
        assert(all.last() == (n - 1) as usize);
    } else {
        assert(all.len() == 0);
    }
}

} // verus!
