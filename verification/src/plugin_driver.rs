//! The decisions of the plugin driver: which plugins a hook runs, in which
//! order, and how the results of transform hooks combine.
use oxc_sourcemap::SourceMap;
use std::sync::Arc;
use vstd::prelude::*;

use crate::module::ModuleType;
use crate::sourcemap::{
    get_source, get_source_content, identity_source_map, normalized_sourcemap, set_single_source,
    set_single_source_content, sourcemap_contents, sourcemap_names, sourcemap_tokens, sources_len,
    utf8_len, effective_hires, SourcemapHires,
};
use crate::text::str_eq;

verus! {

/// Position of a plugin in the list of plugins.
pub type PluginIdx = usize;

/// A resolve call that a plugin made from inside its own `resolveId` hook
/// with `skipSelf`: that plugin is not asked again for the same request.
#[derive(Debug, Clone)]
pub struct HookResolveIdSkipped {
    pub plugin_idx: PluginIdx,
    pub importer: Option<String>,
    pub specifier: String,
}

/// What a transform hook says of a module's side effects.
#[derive(Debug, Clone, Copy, PartialEq, Eq)]
pub enum HookSideEffects {
    True,
    False,
    NoTreeshake,
}

/// The plugin driver: for each hook, the plugins that implement it, in the
/// order they run.
#[derive(Debug, Clone)]
pub struct PluginDriver {
    pub order_by_build_start_meta: Vec<PluginIdx>,
    pub order_by_resolve_id_meta: Vec<PluginIdx>,
    pub order_by_resolve_dynamic_import_meta: Vec<PluginIdx>,
    pub order_by_load_meta: Vec<PluginIdx>,
    pub order_by_transform_meta: Vec<PluginIdx>,
    pub order_by_transform_ast_meta: Vec<PluginIdx>,
    pub order_by_module_parsed_meta: Vec<PluginIdx>,
    pub order_by_build_end_meta: Vec<PluginIdx>,
    /// The configured resolution of sourcemaps generated for transformed code.
    pub transform_hires_sourcemap: Option<SourcemapHires>,
}

/// The importer of a skipped call equals the importer of the request.
pub open spec fn same_importer(a: Option<String>, b: Option<Seq<char>>) -> bool {
    match (a, b) {
        (None, None) => true,
        (Some(x), Some(y)) => x@ == y,
        _ => false,
    }
}

/// The plugins of the skipped calls made for `specifier` from `importer`,
/// in the order of the calls.
pub open spec fn skipped_plugins_for(
    calls: Seq<Arc<HookResolveIdSkipped>>,
    specifier: Seq<char>,
    importer: Option<Seq<char>>,
) -> Seq<PluginIdx>
    decreases calls.len(),
{
    if calls.len() == 0 {
        Seq::empty()
    } else {
        let rest = skipped_plugins_for(calls.drop_last(), specifier, importer);
        let c = calls.last();
        if c.specifier@ == specifier && same_importer(c.importer, importer) {
            rest.push(c.plugin_idx)
        } else {
            rest
        }
    }
}

/// `s` without the elements of `skip`, in order.
pub open spec fn without(s: Seq<PluginIdx>, skip: Seq<PluginIdx>) -> Seq<PluginIdx>
    decreases s.len(),
{
    if s.len() == 0 {
        Seq::empty()
    } else if skip.contains(s[0]) {
        without(s.drop_first(), skip)
    } else {
        seq![s[0]] + without(s.drop_first(), skip)
    }
}

/// A plugin is handed out exactly when it is in the order and not skipped.
pub proof fn lemma_without_members(s: Seq<PluginIdx>, skip: Seq<PluginIdx>, x: PluginIdx)
    ensures
        without(s, skip).contains(x) <==> (s.contains(x) && !skip.contains(x)),
    decreases s.len(),
{
    if s.len() > 0 {
        lemma_without_members(s.drop_first(), skip, x);
        assert(s =~= seq![s[0]] + s.drop_first());
        let rest = without(s.drop_first(), skip);
        if !skip.contains(s[0]) {
            assert((seq![s[0]] + rest)[0] == s[0]);
            if rest.contains(x) {
                let i = choose|i: int| 0 <= i < rest.len() && rest[i] == x;
                assert((seq![s[0]] + rest)[i + 1] == x);
            }
            if (seq![s[0]] + rest).contains(x) {
                let i = choose|i: int| 0 <= i < (seq![s[0]] + rest).len() && (seq![s[0]] + rest)[i] == x;
                if i > 0 {
                    assert(rest[i - 1] == x);
                }
            }
        }
        if s.contains(x) && x != s[0] {
            let i = choose|i: int| 0 <= i < s.len() && s[i] == x;
            assert(s.drop_first()[i - 1] == x);
        }
        if s.drop_first().contains(x) {
            let i = choose|i: int| 0 <= i < s.drop_first().len() && s.drop_first()[i] == x;
            assert(s[i + 1] == x);
        }
    }
}

/// Walks a hook's plugin order, passing over skipped plugins.
#[derive(Debug)]
pub struct HookCursor {
    order: Vec<PluginIdx>,
    skipped: Vec<PluginIdx>,
    pos: usize,
}

impl HookCursor {
    /// The plugins still to be called, in order.
    pub closed spec fn remaining(&self) -> Seq<PluginIdx> {
        without(self.order@.skip(self.pos as int), self.skipped@)
    }

    #[verifier::type_invariant]
    spec fn inv(&self) -> bool {
        self.pos <= self.order.len()
    }

    /// A cursor over `order` that passes over the plugins in `skipped`.
    pub fn new(order: &Vec<PluginIdx>, skipped: Vec<PluginIdx>) -> (c: Self)
        ensures
            c.remaining() == without(order@, skipped@),
    {
        let c = HookCursor { order: order.clone(), skipped, pos: 0 };
        assert(c.order@.skip(0) =~= order@);
        c
    }

    /// The next plugin to call, if any.
    pub fn next_plugin(&mut self) -> (r: Option<PluginIdx>)
        ensures
            old(self).remaining().len() == 0 ==> r is None
                && final(self).remaining() == old(self).remaining(),
            old(self).remaining().len() > 0 ==> r == Some(old(self).remaining()[0])
                && final(self).remaining() == old(self).remaining().drop_first(),
    {
        proof {
            use_type_invariant(&*self);
        }
        let n = self.order.len();
        let mut pos = self.pos;
        let ghost start = self.remaining();
        while pos < n
            invariant
                *self == *old(self),
                n == self.order.len(),
                self.pos <= pos <= n,
                without(self.order@.skip(pos as int), self.skipped@) == start,
                start == self.remaining(),
            decreases n - pos,
        {
            let p = self.order[pos];
            assert(self.order@.skip(pos as int).drop_first() =~= self.order@.skip(pos + 1));
            if !contains(&self.skipped, p) {
                self.pos = pos + 1;
                assert(self.remaining() == without(self.order@.skip(pos + 1), self.skipped@));
                assert(start == seq![p] + without(self.order@.skip(pos + 1), self.skipped@));
                assert(start.drop_first() =~= without(self.order@.skip(pos + 1), self.skipped@));
                return Some(p);
            }
            pos = pos + 1;
        }
        assert(self.order@.skip(pos as int).len() == 0);
        None
    }
}

/// The next step of a hook loop.
#[derive(Debug)]
pub enum HookStep<A, R> {
    /// Call this plugin's hook, handing it this value.
    Call(PluginIdx, A),
    /// Stop with this result.
    Done(R),
}

/// One step of a hook whose first answer wins, from the plugins still to be
/// called and the result of the hook called last (`Ok(None)` before the
/// first call): the step taken and the plugins left after it. An answer or
/// an error ends the hook with it; otherwise the next plugin is asked, and
/// when none is left the hook ends without an answer.
pub open spec fn first_answer_step_spec<T, E>(
    remaining: Seq<PluginIdx>,
    last: Result<Option<T>, E>,
) -> (HookStep<(), Result<Option<T>, E>>, Seq<PluginIdx>) {
    match last {
        Ok(None) => if remaining.len() == 0 {
            (HookStep::Done(Ok(None)), remaining)
        } else {
            (HookStep::Call(remaining[0], ()), remaining.drop_first())
        },
        _ => (HookStep::Done(last), remaining),
    }
}

/// A hook whose first answer wins, run to its end by repeated steps, each
/// asked plugin `p` returning `results(p)`: the plugins asked, in order,
/// and the hook's result.
pub open spec fn run_first_answer<T, E>(
    remaining: Seq<PluginIdx>,
    last: Result<Option<T>, E>,
    results: spec_fn(PluginIdx) -> Result<Option<T>, E>,
) -> (Seq<PluginIdx>, Result<Option<T>, E>)
    decreases remaining.len(),
{
    match first_answer_step_spec(remaining, last) {
        (HookStep::Done(a), _) => (Seq::empty(), a),
        (HookStep::Call(p, _), rest) => {
            let (asked, a) = run_first_answer(rest, results(p), results);
            (seq![p] + asked, a)
        },
    }
}

/// The first answer wins: a hook asks its plugins in order and stops at the
/// first that does not return `Ok(None)`, ending with what it returned, an
/// answer or an error; no later plugin is asked. When every plugin returns
/// `Ok(None)`, all are asked and the hook ends with `Ok(None)`.
pub proof fn lemma_first_answer_wins<T, E>(
    remaining: Seq<PluginIdx>,
    results: spec_fn(PluginIdx) -> Result<Option<T>, E>,
)
    ensures
        ({
            let (asked, a) = run_first_answer(remaining, Ok(None), results);
            &&& asked.len() <= remaining.len()
            &&& asked == remaining.take(asked.len() as int)
            &&& forall|i: int| 0 <= i < asked.len() - 1 ==> #[trigger] results(asked[i]) == Ok::<
                Option<T>,
                E,
            >(None)
            &&& a != Ok::<Option<T>, E>(None) ==> asked.len() > 0 && a == results(asked.last())
            &&& a == Ok::<Option<T>, E>(None) ==> asked == remaining && forall|i: int|
                0 <= i < remaining.len() ==> #[trigger] results(remaining[i]) == Ok::<
                    Option<T>,
                    E,
                >(None)
        }),
    decreases remaining.len(),
{
    if remaining.len() > 0 {
        let p = remaining[0];
        let rest = remaining.drop_first();
        lemma_first_answer_wins(rest, results);
        let (asked, a) = run_first_answer(remaining, Ok(None), results);
        if results(p) == Ok::<Option<T>, E>(None) {
            let (asked2, a2) = run_first_answer(rest, Ok(None), results);
            assert(asked == seq![p] + asked2);
            assert(asked =~= remaining.take(asked.len() as int));
            assert forall|i: int| 0 <= i < asked.len() - 1 implies #[trigger] results(asked[i])
                == Ok::<Option<T>, E>(None) by {
                if i > 0 {
                    assert(asked[i] == asked2[i - 1]);
                }
            }
            if a == Ok::<Option<T>, E>(None) {
                assert(asked =~= remaining);
                assert forall|i: int| 0 <= i < remaining.len() implies #[trigger] results(
                    remaining[i],
                ) == Ok::<Option<T>, E>(None) by {
                    if i > 0 {
                        assert(remaining[i] == rest[i - 1]);
                    }
                }
            } else {
                assert(asked.last() == asked2.last());
            }
        } else {
            assert(run_first_answer(rest, results(p), results) == (
                Seq::<PluginIdx>::empty(),
                results(p),
            ));
            assert(asked =~= seq![p]);
            assert(asked =~= remaining.take(1));
        }
    }
}

/// One step of a hook that every plugin runs in turn, each handing a value
/// to the next (`()` where there is none), from the plugins still to be
/// called and the result of the hook called last (`Ok` of the starting
/// value before the first call): an error ends the hook with it; otherwise
/// the next plugin is called with the value, and when none is left the hook
/// ends with it.
pub open spec fn sequential_step_spec<A, E>(remaining: Seq<PluginIdx>, last: Result<A, E>) -> (
    HookStep<A, Result<A, E>>,
    Seq<PluginIdx>,
) {
    match last {
        Ok(a) => if remaining.len() == 0 {
            (HookStep::Done(Ok(a)), remaining)
        } else {
            (HookStep::Call(remaining[0], a), remaining.drop_first())
        },
        Err(e) => (HookStep::Done(Err(e)), remaining),
    }
}

/// A sequential hook run to its end by repeated steps, each called plugin
/// `p` with value `a` returning `hook(p, a)`: the plugins called, in order,
/// and the hook's result.
pub open spec fn run_sequential<A, E>(
    remaining: Seq<PluginIdx>,
    last: Result<A, E>,
    hook: spec_fn(PluginIdx, A) -> Result<A, E>,
) -> (Seq<PluginIdx>, Result<A, E>)
    decreases remaining.len(),
{
    match sequential_step_spec(remaining, last) {
        (HookStep::Done(r), _) => (Seq::empty(), r),
        (HookStep::Call(p, a), rest) => {
            let (called, r) = run_sequential(rest, hook(p, a), hook);
            (seq![p] + called, r)
        },
    }
}

/// The plugins `ps` called in turn from `a`, each on the value the one
/// before returned, as if none could stop the others: the value of the last,
/// or the first error.
pub open spec fn thread_hooks<A, E>(
    ps: Seq<PluginIdx>,
    a: A,
    hook: spec_fn(PluginIdx, A) -> Result<A, E>,
) -> Result<A, E>
    decreases ps.len(),
{
    if ps.len() == 0 {
        Ok(a)
    } else {
        match hook(ps[0], a) {
            Ok(b) => thread_hooks(ps.drop_first(), b, hook),
            Err(e) => Err(e),
        }
    }
}

/// A sequential hook stops at the first error: its result is that of the
/// plugins called in turn, `Ok` exactly when every plugin succeeded, else
/// the first error; the plugins called are those up to the failing one, and
/// all of them when none failed.
pub proof fn lemma_sequential_stops_at_first_error<A, E>(
    remaining: Seq<PluginIdx>,
    a: A,
    hook: spec_fn(PluginIdx, A) -> Result<A, E>,
)
    ensures
        ({
            let (called, r) = run_sequential(remaining, Ok(a), hook);
            &&& called.len() <= remaining.len()
            &&& called == remaining.take(called.len() as int)
            &&& r == thread_hooks(remaining, a, hook)
            &&& r == thread_hooks(called, a, hook)
            &&& forall|j: int| 0 <= j < called.len() ==> #[trigger] thread_hooks(
                called.take(j),
                a,
                hook,
            ) is Ok
            &&& r is Ok ==> called == remaining
        }),
    decreases remaining.len(),
{
    if remaining.len() > 0 {
        let p = remaining[0];
        let rest = remaining.drop_first();
        let (called, r) = run_sequential(remaining, Ok(a), hook);
        match hook(p, a) {
            Ok(b) => {
                lemma_sequential_stops_at_first_error(rest, b, hook);
                let (called2, r2) = run_sequential(rest, Ok(b), hook);
                assert(called == seq![p] + called2);
                assert(called =~= remaining.take(called.len() as int));
                assert(called.drop_first() =~= called2);
                assert forall|j: int| 0 <= j < called.len() implies #[trigger] thread_hooks(
                    called.take(j),
                    a,
                    hook,
                ) is Ok by {
                    if j > 0 {
                        assert(called.take(j).drop_first() =~= called2.take(j - 1));
                        assert(called.take(j)[0] == p);
                        assert(thread_hooks(called2.take(j - 1), b, hook) is Ok);
                    } else {
                        assert(called.take(j) =~= Seq::<PluginIdx>::empty());
                    }
                }
                if r is Ok {
                    assert(called =~= remaining);
                }
            },
            Err(e) => {
                assert(run_sequential(rest, hook(p, a), hook) == (Seq::<PluginIdx>::empty(), hook(p, a)));
                assert(called =~= seq![p]);
                assert(called =~= remaining.take(1));
                assert(called.drop_first() =~= Seq::<PluginIdx>::empty());
                assert forall|j: int| 0 <= j < called.len() implies #[trigger] thread_hooks(
                    called.take(j),
                    a,
                    hook,
                ) is Ok by {
                    assert(called.take(j) =~= Seq::<PluginIdx>::empty());
                }
            },
        }
    }
}

impl HookCursor {
    /// One step of a hook whose first answer wins; see
    /// `first_answer_step_spec`.
    pub fn first_answer_step<T, E>(&mut self, last: Result<Option<T>, E>) -> (r: HookStep<
        (),
        Result<Option<T>, E>,
    >)
        ensures
            (r, final(self).remaining()) == first_answer_step_spec(old(self).remaining(), last),
    {
        match last {
            Ok(None) => match self.next_plugin() {
                Some(p) => HookStep::Call(p, ()),
                None => HookStep::Done(Ok(None)),
            },
            _ => HookStep::Done(last),
        }
    }

    /// One step of a hook that every plugin runs in turn; see
    /// `sequential_step_spec`.
    pub fn sequential_step<A, E>(&mut self, last: Result<A, E>) -> (r: HookStep<A, Result<A, E>>)
        ensures
            (r, final(self).remaining()) == sequential_step_spec(old(self).remaining(), last),
    {
        match last {
            Ok(a) => match self.next_plugin() {
                Some(p) => HookStep::Call(p, a),
                None => HookStep::Done(Ok(a)),
            },
            Err(e) => HookStep::Done(Err(e)),
        }
    }
}

/// Whether `v` holds `x`.
pub fn contains(v: &Vec<PluginIdx>, x: PluginIdx) -> (r: bool)
    ensures
        r == v@.contains(x),
{
    let mut i: usize = 0;
    while i < v.len()
        invariant
            i <= v.len(),
            forall|j: int| 0 <= j < i ==> v@[j] != x,
        decreases v.len() - i,
    {
        if v[i] == x {
            assert(v@[i as int] == x);
            return true;
        }
        i = i + 1;
    }
    false
}

/// A module's state as the transform hooks run over it.
#[derive(Debug)]
pub struct TransformState {
    pub code: String,
    pub sourcemap_chain: Vec<SourceMap<'static>>,
    pub side_effects: Option<HookSideEffects>,
    pub module_type: ModuleType,
}

/// What a transform hook returned.
#[derive(Debug)]
pub struct HookTransformOutput {
    pub code: Option<String>,
    pub map: Option<SourceMap<'static>>,
    pub side_effects: Option<HookSideEffects>,
    pub module_type: Option<ModuleType>,
}

impl PluginDriver {
    /// The plugins that `skipSelf` resolve calls have ruled out for a
    /// request of `specifier` from `importer`: those of the calls made for
    /// the same specifier and importer, in call order.
    pub fn get_resolve_call_skipped_plugins(
        specifier: &str,
        importer: Option<&str>,
        skipped_resolve_calls: Option<&Vec<Arc<HookResolveIdSkipped>>>,
    ) -> (r: Vec<PluginIdx>)
        ensures
            r@ == match skipped_resolve_calls {
                Some(calls) => skipped_plugins_for(
                    calls@,
                    specifier@,
                    match importer {
                        Some(i) => Some(i@),
                        None => None,
                    },
                ),
                None => Seq::empty(),
            },
    {
        let ghost imp = match importer {
            Some(i) => Some(i@),
            None => None,
        };
        let mut skipped_plugins: Vec<PluginIdx> = Vec::new();
        if let Some(calls) = skipped_resolve_calls {
            let mut i: usize = 0;
            while i < calls.len()
                invariant
                    i <= calls.len(),
                    imp == match importer {
                        Some(i) => Some(i@),
                        None => None::<Seq<char>>,
                    },
                    skipped_plugins@ == skipped_plugins_for(calls@.take(i as int), specifier@, imp),
                decreases calls.len() - i,
            {
                let call: &HookResolveIdSkipped = &*calls[i];
                assert(calls@.take(i + 1).drop_last() =~= calls@.take(i as int));
                let same_imp = match (&call.importer, importer) {
                    (None, None) => true,
                    (Some(a), Some(b)) => str_eq(a.as_str(), b),
                    _ => false,
                };
                if str_eq(call.specifier.as_str(), specifier) && same_imp {
                    skipped_plugins.push(call.plugin_idx);
                }
                i = i + 1;
            }
            assert(calls@.take(calls.len() as int) =~= calls@);
        }
        skipped_plugins
    }

    /// The plugins that `resolve_id` asks, in order: those implementing the
    /// hook, minus those that `skipSelf` calls ruled out for this request.
    pub fn resolve_id_plugins(
        &self,
        specifier: &str,
        importer: Option<&str>,
        skipped_resolve_calls: Option<&Vec<Arc<HookResolveIdSkipped>>>,
    ) -> (c: HookCursor)
        ensures
            c.remaining() == without(
                self.order_by_resolve_id_meta@,
                match skipped_resolve_calls {
                    Some(calls) => skipped_plugins_for(
                        calls@,
                        specifier@,
                        match importer {
                            Some(i) => Some(i@),
                            None => None,
                        },
                    ),
                    None => Seq::empty(),
                },
            ),
    {
        let skipped = Self::get_resolve_call_skipped_plugins(
            specifier,
            importer,
            skipped_resolve_calls,
        );
        HookCursor::new(&self.order_by_resolve_id_meta, skipped)
    }

    /// The plugins that `resolve_dynamic_import` asks, in order.
    pub fn resolve_dynamic_import_plugins(
        &self,
        specifier: &str,
        importer: Option<&str>,
        skipped_resolve_calls: Option<&Vec<Arc<HookResolveIdSkipped>>>,
    ) -> (c: HookCursor)
        ensures
            c.remaining() == without(
                self.order_by_resolve_dynamic_import_meta@,
                match skipped_resolve_calls {
                    Some(calls) => skipped_plugins_for(
                        calls@,
                        specifier@,
                        match importer {
                            Some(i) => Some(i@),
                            None => None,
                        },
                    ),
                    None => Seq::empty(),
                },
            ),
    {
        let skipped = Self::get_resolve_call_skipped_plugins(
            specifier,
            importer,
            skipped_resolve_calls,
        );
        HookCursor::new(&self.order_by_resolve_dynamic_import_meta, skipped)
    }

    /// Fills in what a transform hook's sourcemap leaves out; see
    /// `normalized_sourcemap`. Generated maps use the configured resolution,
    /// `true` when unset.
    pub fn normalize_transform_sourcemap(
        &self,
        map: Option<SourceMap<'static>>,
        id: &str,
        original_code: &str,
        code: Option<&String>,
    ) -> (r: Option<SourceMap<'static>>)
        requires
            map is None && code is Some ==> utf8_len(original_code@) < u32::MAX,
        ensures
            normalized_sourcemap(
                effective_hires(self.transform_hires_sourcemap),
                map,
                id@,
                original_code@,
                match code {
                    Some(c) => Some(c@),
                    None => None,
                },
                r,
            ),
    {
        match map {
            Some(mut map) => {
                let ghost m0 = map;
                let source = get_source(&map, 0);
                let fill = match source {
                    None => true,
                    Some(s) => s.is_empty() || (sources_len(&map) == 1 && !str_eq(s, id)),
                };
                if fill {
                    set_single_source(&mut map, id);
                }
                let ghost m1 = map;
                let content = get_source_content(&map, 0);
                let fill_content = match content {
                    None => true,
                    Some(c) => c.is_empty(),
                };
                if fill_content {
                    set_single_source_content(&mut map, original_code);
                }
                assert(sourcemap_contents(m1) == sourcemap_contents(m0));
                assert(sourcemap_names(m1) == sourcemap_names(m0));
                assert(sourcemap_tokens(m1) == sourcemap_tokens(m0));
                Some(map)
            },
            None => match code {
                Some(code) => {
                    if str_eq(original_code, code.as_str()) {
                        None
                    } else {
                        let hires = match self.transform_hires_sourcemap {
                            Some(h) => h,
                            None => SourcemapHires::Boolean(true),
                        };
                        Some(identity_source_map(original_code, hires, id))
                    }
                },
                None => None,
            },
        }
    }

    /// `after` is `before` with one transform hook's result folded in. The
    /// maps that the hook added to the chain through its context join the
    /// chain first, then the normalized sourcemap of its result (if any); the
    /// code, side effects and module type it returns replace the current
    /// ones. A hook that returned nothing changes nothing else.
    pub open spec fn transform_folded(
        &self,
        id: Seq<char>,
        before: TransformState,
        context_maps: Seq<SourceMap<'static>>,
        output: Option<HookTransformOutput>,
        after: TransformState,
    ) -> bool {
        match output {
            None => {
                &&& after.code@ == before.code@
                &&& after.sourcemap_chain@ == before.sourcemap_chain@ + context_maps
                &&& after.side_effects == before.side_effects
                &&& after.module_type == before.module_type
            },
            Some(out) => {
                &&& after.code@ == match out.code {
                    Some(c) => c@,
                    None => before.code@,
                }
                &&& after.side_effects == match out.side_effects {
                    Some(v) => Some(v),
                    None => before.side_effects,
                }
                &&& after.module_type == match out.module_type {
                    Some(t) => t,
                    None => before.module_type,
                }
                &&& {
                    let chain = after.sourcemap_chain@;
                    let base = before.sourcemap_chain@ + context_maps;
                    let hires = effective_hires(self.transform_hires_sourcemap);
                    let code = match out.code {
                        Some(c) => Some(c@),
                        None => None,
                    };
                    ||| (chain == base && normalized_sourcemap(
                        hires,
                        out.map,
                        id,
                        before.code@,
                        code,
                        None,
                    ))
                    ||| (chain.len() == base.len() + 1 && chain.drop_last() == base
                        && normalized_sourcemap(
                        hires,
                        out.map,
                        id,
                        before.code@,
                        code,
                        Some(chain.last()),
                    ))
                }
            },
        }
    }

    /// Folds one transform hook's result into the module's state; see
    /// `transform_folded`.
    pub fn apply_transform_output(
        &self,
        id: &str,
        state: &mut TransformState,
        context_maps: Vec<SourceMap<'static>>,
        output: Option<HookTransformOutput>,
    )
        requires
            output matches Some(o) && o.map is None && o.code is Some ==> utf8_len(
                old(state).code@,
            ) < u32::MAX,
        ensures
            self.transform_folded(id@, *old(state), context_maps@, output, *final(state)),
    {
        let mut context_maps = context_maps;
        state.sourcemap_chain.append(&mut context_maps);
        if let Some(r) = output {
            let HookTransformOutput { code, map, side_effects, module_type } = r;
            let normalized = self.normalize_transform_sourcemap(
                map,
                id,
                state.code.as_str(),
                code.as_ref(),
            );
            if let Some(m) = normalized {
                let ghost base = state.sourcemap_chain@;
                state.sourcemap_chain.push(m);
                assert(state.sourcemap_chain@.drop_last() =~= base);
            }
            if let Some(v) = side_effects {
                state.side_effects = Some(v);
            }
            if let Some(v) = code {
                state.code = v;
            }
            if let Some(t) = module_type {
                state.module_type = t;
            }
        }
    }

    /// One step of the transform hooks over a module, given the result of
    /// the hook called last and the maps it added to the chain through its
    /// context (`None` before the first call). A result is folded into the
    /// state (see `transform_folded`) and the next plugin is called, until
    /// none is left. An error ends the hook loop with it: the code, side
    /// effects and module type stay as the earlier hooks left them, and the
    /// sourcemap chain, which the loop took from the module, is not given
    /// back.
    pub fn transform_step<E>(
        &self,
        cursor: &mut HookCursor,
        id: &str,
        state: &mut TransformState,
        last: Option<(Result<Option<HookTransformOutput>, E>, Vec<SourceMap<'static>>)>,
    ) -> (r: HookStep<(), Result<(), E>>)
        requires
            last matches Some((Ok(Some(o)), _)) && o.map is None && o.code is Some ==> utf8_len(
                old(state).code@,
            ) < u32::MAX,
        ensures
            match last {
                Some((Err(e), _)) => {
                    &&& r == HookStep::<(), Result<(), E>>::Done(Err(e))
                    &&& final(cursor).remaining() == old(cursor).remaining()
                    &&& final(state).code@ == old(state).code@
                    &&& final(state).sourcemap_chain@ == Seq::<SourceMap<'static>>::empty()
                    &&& final(state).side_effects == old(state).side_effects
                    &&& final(state).module_type == old(state).module_type
                },
                Some((Ok(out), maps)) => {
                    &&& self.transform_folded(id@, *old(state), maps@, out, *final(state))
                    &&& (r, final(cursor).remaining()) == sequential_step_spec(
                        old(cursor).remaining(),
                        Ok::<(), E>(()),
                    )
                },
                None => {
                    &&& *final(state) == *old(state)
                    &&& (r, final(cursor).remaining()) == sequential_step_spec(
                        old(cursor).remaining(),
                        Ok::<(), E>(()),
                    )
                },
            },
    {
        match last {
            Some((result, context_maps)) => match result {
                Ok(output) => {
                    self.apply_transform_output(id, state, context_maps, output);
                },
                Err(e) => {
                    state.sourcemap_chain = Vec::new();
                    return HookStep::Done(Err(e));
                },
            },
            None => {},
        }
        match cursor.next_plugin() {
            Some(p) => HookStep::Call(p, ()),
            None => HookStep::Done(Ok(())),
        }
    }
}

/// What a transform hook returns replaces what was there: side effects it
/// gives become the module's, whatever they were before, and likewise its
/// module type and code; only what it leaves out (`None`) keeps the earlier
/// value. The chain keeps what it held, then the maps added through the
/// context, then at most one map more.
pub proof fn lemma_hook_output_replaces(
    driver: PluginDriver,
    id: Seq<char>,
    before: TransformState,
    context_maps: Seq<SourceMap<'static>>,
    out: HookTransformOutput,
    after: TransformState,
)
    requires
        driver.transform_folded(id, before, context_maps, Some(out), after),
    ensures
        out.side_effects matches Some(v) ==> after.side_effects == Some(v),
        out.side_effects is None ==> after.side_effects == before.side_effects,
        out.module_type matches Some(t) ==> after.module_type == t,
        out.module_type is None ==> after.module_type == before.module_type,
        out.code matches Some(c) ==> after.code@ == c@,
        out.code is None ==> after.code@ == before.code@,
        ({
            let base = before.sourcemap_chain@ + context_maps;
            &&& base.len() <= after.sourcemap_chain@.len() <= base.len() + 1
            &&& after.sourcemap_chain@.take(base.len() as int) == base
        }),
{
    let base = before.sourcemap_chain@ + context_maps;
    let chain = after.sourcemap_chain@;
    if chain.len() == base.len() + 1 {
        assert(chain.take(base.len() as int) =~= chain.drop_last());
    } else {
        assert(chain.take(base.len() as int) =~= chain);
    }
}

/// A hook that returned nothing leaves the code, side effects and module
/// type as they were; only the maps it added through its context join the
/// chain.
pub proof fn lemma_no_output_changes_nothing_else(
    driver: PluginDriver,
    id: Seq<char>,
    before: TransformState,
    context_maps: Seq<SourceMap<'static>>,
    after: TransformState,
)
    requires
        driver.transform_folded(id, before, context_maps, None, after),
    ensures
        after.code@ == before.code@,
        after.side_effects == before.side_effects,
        after.module_type == before.module_type,
        after.sourcemap_chain@ == before.sourcemap_chain@ + context_maps,
{
}

/// The plugins ruled out for a request are those of the skipped calls made
/// for the same specifier and the same importer (both absent, or both
/// present and equal), in the order of the calls.
pub proof fn lemma_skipped_plugins_match_request(
    calls: Seq<Arc<HookResolveIdSkipped>>,
    specifier: Seq<char>,
    importer: Option<Seq<char>>,
)
    ensures
        skipped_plugins_for(calls, specifier, importer) == calls.filter(
            |c: Arc<HookResolveIdSkipped>|
                c.specifier@ == specifier && match (c.importer, importer) {
                    (None, None) => true,
                    (Some(x), Some(y)) => x@ == y,
                    _ => false,
                },
        ).map_values(|c: Arc<HookResolveIdSkipped>| c.plugin_idx),
    decreases calls.len(),
{
    reveal(Seq::filter);
    let pred = |c: Arc<HookResolveIdSkipped>|
        c.specifier@ == specifier && match (c.importer, importer) {
            (None, None) => true,
            (Some(x), Some(y)) => x@ == y,
            _ => false,
        };
    let f = |c: Arc<HookResolveIdSkipped>| c.plugin_idx;
    if calls.len() > 0 {
        lemma_skipped_plugins_match_request(calls.drop_last(), specifier, importer);
        let rest = calls.drop_last().filter(pred);
        if pred(calls.last()) {
            assert(calls.filter(pred) == rest.push(calls.last()));
            assert(rest.push(calls.last()).map_values(f) =~= rest.map_values(f).push(calls.last().plugin_idx));
        } else {
            assert(calls.filter(pred) == rest);
        }
    } else {
        assert(calls.filter(pred).map_values(f) =~= Seq::<PluginIdx>::empty());
    }
}

/// The plugins a cursor hands out are those of the order that are not
/// skipped, in the order's order.
pub proof fn lemma_without_is_order_minus_skipped(s: Seq<PluginIdx>, skip: Seq<PluginIdx>)
    ensures
        without(s, skip) == s.filter(|x: PluginIdx| !skip.contains(x)),
    decreases s.len(),
{
    let pred = |x: PluginIdx| !skip.contains(x);
    if s.len() > 0 {
        lemma_without_is_order_minus_skipped(s.drop_first(), skip);
        assert(s =~= seq![s[0]] + s.drop_first());
        Seq::filter_distributes_over_add(seq![s[0]], s.drop_first(), pred);
        reveal(Seq::filter);
        let one = seq![s[0]];
        assert(one.drop_last() =~= Seq::<PluginIdx>::empty());
        assert(one.drop_last().filter(pred) =~= Seq::<PluginIdx>::empty());
        assert(one.last() == s[0]);
        if pred(s[0]) {
            assert(seq![s[0]].filter(pred) =~= seq![s[0]]);
        } else {
            assert(seq![s[0]].filter(pred) =~= Seq::<PluginIdx>::empty());
            assert(Seq::<PluginIdx>::empty() + s.drop_first().filter(pred) =~= s.drop_first().filter(pred));
        }
    } else {
        reveal(Seq::filter);
    }
}

} // verus!
