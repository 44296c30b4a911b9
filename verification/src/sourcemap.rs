//! The sourcemaps that transform hooks hand back, and how the plugin driver
//! fills in what they leave out.
use oxc_sourcemap::SourceMap;
use string_wizard::{Hires, MagicString, SourceMapOptions};
use vstd::prelude::*;

use crate::text::str_eq;

verus! {

/// `oxc_sourcemap::SourceMap`, whose contents are opaque here; its
/// `sources`, `sourcesContent`, `names` and mappings are named below.
#[verifier::external_type_specification]
#[verifier::external_body]
pub struct ExSourceMap<'a>(SourceMap<'a>);

/// The `sources` of a sourcemap, in order.
pub uninterp spec fn sourcemap_sources(m: SourceMap<'static>) -> Seq<Seq<char>>;

/// The `sourcesContent` of a sourcemap, in order.
pub uninterp spec fn sourcemap_contents(m: SourceMap<'static>) -> Seq<Option<Seq<char>>>;

/// The `names` of a sourcemap, in order.
pub uninterp spec fn sourcemap_names(m: SourceMap<'static>) -> Seq<Seq<char>>;

/// A mapping of a sourcemap: generated line and column, original line and
/// column, source index and name index.
pub type MappingToken = (u32, u32, u32, u32, Option<u32>, Option<u32>);

/// The mappings (tokens) of a sourcemap, in order.
pub uninterp spec fn sourcemap_tokens(m: SourceMap<'static>) -> Seq<MappingToken>;

/// Calls `SourceMap::get_source`: the source at position `id` of `sources`,
/// or `None` past its end.
#[verifier::external_body]
pub(crate) fn get_source<'b>(m: &'b SourceMap<'static>, id: u32) -> (r: Option<&'b str>)
    ensures
        match r {
            Some(s) => id < sourcemap_sources(*m).len() && s@ == sourcemap_sources(*m)[id as int],
            None => id >= sourcemap_sources(*m).len(),
        },
{
    m.get_source(id)
}

/// Calls `SourceMap::get_sources` and counts them: the length of `sources`.
#[verifier::external_body]
pub(crate) fn sources_len(m: &SourceMap<'static>) -> (r: usize)
    ensures
        r == sourcemap_sources(*m).len(),
{
    m.get_sources().len()
}

/// Calls `SourceMap::set_sources` with the one source `id`: `sources`
/// becomes `[id]`; `sourcesContent`, `names` and the mappings stay as they
/// were. The other fields (file, source root, ignore list, debug id) are
/// left unsaid; the call does not touch them.
#[verifier::external_body]
pub(crate) fn set_single_source(m: &mut SourceMap<'static>, id: &str)
    ensures
        sourcemap_sources(*final(m)) == seq![id@],
        sourcemap_contents(*final(m)) == sourcemap_contents(*old(m)),
        sourcemap_names(*final(m)) == sourcemap_names(*old(m)),
        sourcemap_tokens(*final(m)) == sourcemap_tokens(*old(m)),
{
    m.set_sources(vec![id])
}

/// Calls `SourceMap::get_source_content`: the content at position `id` of
/// `sourcesContent`, or `None` past its end or where the content is absent.
#[verifier::external_body]
pub(crate) fn get_source_content<'b>(m: &'b SourceMap<'static>, id: u32) -> (r: Option<&'b str>)
    ensures
        match r {
            Some(s) => id < sourcemap_contents(*m).len() && sourcemap_contents(*m)[id as int]
                == Some(s@),
            None => id >= sourcemap_contents(*m).len() || sourcemap_contents(*m)[id as int] is None,
        },
{
    m.get_source_content(id)
}

/// Calls `SourceMap::set_source_contents` with the one content `code`:
/// `sourcesContent` becomes `[code]`; `sources`, `names` and the mappings
/// stay as they were. The other fields are left unsaid; the call does not
/// touch them.
#[verifier::external_body]
pub(crate) fn set_single_source_content(m: &mut SourceMap<'static>, code: &str)
    ensures
        sourcemap_contents(*final(m)) == seq![Some(code@)],
        sourcemap_sources(*final(m)) == sourcemap_sources(*old(m)),
        sourcemap_names(*final(m)) == sourcemap_names(*old(m)),
        sourcemap_tokens(*final(m)) == sourcemap_tokens(*old(m)),
{
    m.set_source_contents(vec![Some(code)])
}

/// How fine-grained a generated sourcemap is.
#[derive(Debug, Clone, Copy, PartialEq, Eq)]
pub enum SourcemapHires {
    Boolean(bool),
    Boundary,
}

/// Length in bytes of the UTF-8 encoding of `s`.
pub open spec fn utf8_len(s: Seq<char>) -> nat {
    vstd::utf8::encode_utf8(s).len()
}

/// The mappings that `MagicString::source_map` produces for an unedited
/// `MagicString` of `code` at resolution `hires`.
pub uninterp spec fn identity_tokens(code: Seq<char>, hires: SourcemapHires) -> Seq<MappingToken>;

/// Calls `MagicString::source_map` on an unedited `MagicString` of
/// `original_code` (built by `MagicString::new`), with `hires`,
/// `include_content` and `source` set to `id`: the map has the one source
/// `id`, whose content is `original_code`, no names, and the mappings named
/// `identity_tokens`. Building the line table adds one to the text's UTF-16
/// length in a `u32`, so the text must stay below `u32::MAX` bytes.
#[verifier::external_body]
pub(crate) fn identity_source_map(original_code: &str, hires: SourcemapHires, id: &str) -> (r: SourceMap<
    'static,
>)
    requires
        utf8_len(original_code@) < u32::MAX,
    ensures
        sourcemap_sources(r) == seq![id@],
        sourcemap_contents(r) == seq![Some(original_code@)],
        sourcemap_names(r) == Seq::<Seq<char>>::empty(),
        sourcemap_tokens(r) == identity_tokens(original_code@, hires),
{
    let hires = match hires {
        SourcemapHires::Boolean(true) => Hires::True,
        SourcemapHires::Boolean(false) => Hires::False,
        SourcemapHires::Boundary => Hires::Boundary,
    };
    MagicString::new(original_code).source_map(
        SourceMapOptions { hires, include_content: true, source: id.into() },
    )
}

/// The resolution of generated maps: the configured one, `true` when unset.
pub open spec fn effective_hires(configured: Option<SourcemapHires>) -> SourcemapHires {
    match configured {
        Some(h) => h,
        None => SourcemapHires::Boolean(true),
    }
}

/// The map's first source is missing or empty, or it has exactly one
/// source and that is not `id`.
pub open spec fn needs_source_fill(sources: Seq<Seq<char>>, id: Seq<char>) -> bool {
    sources.len() == 0 || sources[0].len() == 0 || (sources.len() == 1 && sources[0] != id)
}

/// The map's first content is missing or empty.
pub open spec fn needs_content_fill(contents: Seq<Option<Seq<char>>>) -> bool {
    contents.len() == 0 || contents[0] is None || contents[0]->0.len() == 0
}

/// What the driver makes of the sourcemap of a transform hook's result:
/// a returned map gets `id` as its source and `original_code` as its
/// content where those are missing, and keeps its names and mappings; with
/// no map but changed code, a fresh map of the original code at resolution
/// `hires`; otherwise none.
pub open spec fn normalized_sourcemap(
    hires: SourcemapHires,
    map: Option<SourceMap<'static>>,
    id: Seq<char>,
    original_code: Seq<char>,
    code: Option<Seq<char>>,
    r: Option<SourceMap<'static>>,
) -> bool {
    match map {
        Some(m) => match r {
            Some(n) => {
                &&& sourcemap_sources(n) == if needs_source_fill(sourcemap_sources(m), id) {
                    seq![id]
                } else {
                    sourcemap_sources(m)
                }
                &&& sourcemap_contents(n) == if needs_content_fill(sourcemap_contents(m)) {
                    seq![Some(original_code)]
                } else {
                    sourcemap_contents(m)
                }
                &&& sourcemap_names(n) == sourcemap_names(m)
                &&& sourcemap_tokens(n) == sourcemap_tokens(m)
            },
            None => false,
        },
        None => match code {
            Some(c) => if c == original_code {
                r is None
            } else {
                match r {
                    Some(n) => {
                        &&& sourcemap_sources(n) == seq![id]
                        &&& sourcemap_contents(n) == seq![Some(original_code)]
                        &&& sourcemap_names(n) == Seq::<Seq<char>>::empty()
                        &&& sourcemap_tokens(n) == identity_tokens(original_code, hires)
                    },
                    None => false,
                }
            },
            None => r is None,
        },
    }
}

/// Normalization is idempotent: normalizing again, for the same module id
/// and original code, a map that normalization produced leaves it as it is
/// (sources, contents, names and mappings), when neither the id nor the
/// code is empty.
pub proof fn lemma_normalize_idempotent(
    hires: SourcemapHires,
    map: Option<SourceMap<'static>>,
    id: Seq<char>,
    original_code: Seq<char>,
    code: Option<Seq<char>>,
    once: SourceMap<'static>,
    next_code: Option<Seq<char>>,
    twice: Option<SourceMap<'static>>,
)
    requires
        id.len() > 0,
        original_code.len() > 0,
        normalized_sourcemap(hires, map, id, original_code, code, Some(once)),
        normalized_sourcemap(hires, Some(once), id, original_code, next_code, twice),
    ensures
        twice matches Some(t) && sourcemap_sources(t) == sourcemap_sources(once)
            && sourcemap_contents(t) == sourcemap_contents(once) && sourcemap_names(t)
            == sourcemap_names(once) && sourcemap_tokens(t) == sourcemap_tokens(once),
{
    let s = sourcemap_sources(once);
    let c = sourcemap_contents(once);
    assert(!needs_source_fill(s, id));
    assert(!needs_content_fill(c));
}

/// A map that the hook returned is never dropped, and what becomes of it
/// does not depend on the code the hook returned: two normalizations of the
/// same map, for the same module id and original code, agree on sources,
/// contents, names and mappings whatever code came with them.
pub proof fn lemma_returned_map_ignores_code(
    hires: SourcemapHires,
    m: SourceMap<'static>,
    id: Seq<char>,
    original_code: Seq<char>,
    code1: Option<Seq<char>>,
    code2: Option<Seq<char>>,
    r1: Option<SourceMap<'static>>,
    r2: Option<SourceMap<'static>>,
)
    requires
        normalized_sourcemap(hires, Some(m), id, original_code, code1, r1),
        normalized_sourcemap(hires, Some(m), id, original_code, code2, r2),
    ensures
        r1 matches Some(n1) && r2 matches Some(n2) && sourcemap_sources(n1) == sourcemap_sources(n2)
            && sourcemap_contents(n1) == sourcemap_contents(n2) && sourcemap_names(n1)
            == sourcemap_names(n2) && sourcemap_tokens(n1) == sourcemap_tokens(n2),
{
}

/// A returned map whose `sourcesContent` is empty, or whose first content
/// is missing or empty, gets exactly the original code (the code before the
/// hook) as its one content; a first content that is present and not empty
/// is kept as it is. Either way its names and mappings are kept.
pub proof fn lemma_missing_content_is_original_code(
    hires: SourcemapHires,
    m: SourceMap<'static>,
    id: Seq<char>,
    original_code: Seq<char>,
    code: Option<Seq<char>>,
    n: SourceMap<'static>,
)
    requires
        normalized_sourcemap(hires, Some(m), id, original_code, code, Some(n)),
    ensures
        ({
            let c = sourcemap_contents(m);
            (c.len() == 0 || c[0] is None || c[0] == Some(Seq::<char>::empty()))
                ==> sourcemap_contents(n) == seq![Some(original_code)]
        }),
        ({
            let c = sourcemap_contents(m);
            (c.len() > 0 && c[0] is Some && c[0]->0.len() > 0) ==> sourcemap_contents(n)
                == c
        }),
        sourcemap_names(n) == sourcemap_names(m),
        sourcemap_tokens(n) == sourcemap_tokens(m),
{
    let c = sourcemap_contents(m);
    if c.len() > 0 && c[0] == Some(Seq::<char>::empty()) {
        assert(c[0]->0.len() == 0);
    }
}

/// A returned map whose `sources` is empty, or whose first source is empty,
/// or whose one source is not the module id, gets the module id as its one
/// source; any other keeps its sources.
pub proof fn lemma_missing_source_is_module_id(
    hires: SourcemapHires,
    m: SourceMap<'static>,
    id: Seq<char>,
    original_code: Seq<char>,
    code: Option<Seq<char>>,
    n: SourceMap<'static>,
)
    requires
        normalized_sourcemap(hires, Some(m), id, original_code, code, Some(n)),
    ensures
        ({
            let s = sourcemap_sources(m);
            if s.len() == 0 || s[0].len() == 0 || (s.len() == 1 && s[0] != id) {
                sourcemap_sources(n) == seq![id]
            } else {
                sourcemap_sources(n) == s
            }
        }),
{
}

/// Without a returned map, a map is made exactly when the hook changed the
/// code: it maps the original code at the configured resolution (`true`
/// when none is configured), names the module id as its one source and the
/// original code as its one content, and has no names.
pub proof fn lemma_generated_map_for_changed_code(
    configured: Option<SourcemapHires>,
    id: Seq<char>,
    original_code: Seq<char>,
    code: Option<Seq<char>>,
    r: Option<SourceMap<'static>>,
)
    requires
        normalized_sourcemap(effective_hires(configured), None, id, original_code, code, r),
    ensures
        (r is Some) <==> (code matches Some(c) && c != original_code),
        r matches Some(n) ==> {
            &&& sourcemap_sources(n) == seq![id]
            &&& sourcemap_contents(n) == seq![Some(original_code)]
            &&& sourcemap_names(n) == Seq::<Seq<char>>::empty()
            &&& sourcemap_tokens(n) == identity_tokens(
                original_code,
                match configured {
                    Some(h) => h,
                    None => SourcemapHires::Boolean(true),
                },
            )
        },
{
}

} // verus!
