//! The manifest plugin: a JSON map from source files to the files the
//! bundle emitted for them. This part keys the emitted assets, and orders
//! the entries by key for writing. The manifest is a list of keyed entries
//! whose keys are unique (`unique_keys`), standing for the map
//! `manifest_map`; `sorted_manifest` puts it in key order.
use vstd::prelude::*;

use crate::text::{ends_with, lemma_lex_le_total, lemma_lex_le_transitive, lex_le, str_eq, str_le};

verus! {

/// The builtin plugin that writes the manifest to `out_path`.
#[derive(Debug, Clone, Default)]
pub struct ManifestPlugin {
    pub root: String,
    pub out_path: String,
}

impl ManifestPlugin {
    /// The plugin's name, `builtin:manifest`.
    pub fn name(&self) -> (r: String)
        ensures
            r@ == seq!['b', 'u', 'i', 'l', 't', 'i', 'n', ':', 'm', 'a', 'n', 'i', 'f', 'e', 's', 't'],
    {
        let r = String::from_str("builtin:manifest");
        proof {
            reveal_strlit("builtin:manifest");
        }
        assert(r@ =~= seq!['b', 'u', 'i', 'l', 't', 'i', 'n', ':', 'm', 'a', 'n', 'i', 'f', 'e', 's', 't']);
        r
    }
}

/// An asset of the bundle.
#[derive(Debug, Clone)]
pub struct OutputAsset {
    pub filename: String,
    pub names: Vec<String>,
    pub original_file_names: Vec<String>,
}

/// An entry of the manifest.
#[derive(Debug, Clone)]
pub struct ManifestChunk {
    pub file: String,
    pub src: Option<String>,
    pub is_entry: bool,
}

/// The characters of a manifest entry: its file, its source, whether it is
/// an entry.
pub type ManifestChunkView = (Seq<char>, Option<Seq<char>>, bool);

impl ManifestChunk {
    pub open spec fn view_of(self) -> ManifestChunkView {
        (
            self.file@,
            match self.src {
                Some(s) => Some(s@),
                None => None,
            },
            self.is_entry,
        )
    }

    /// A copy of this entry.
    pub fn copy(&self) -> (r: ManifestChunk)
        ensures
            r.view_of() == self.view_of(),
    {
        ManifestChunk {
            file: self.file.clone(),
            src: match &self.src {
                Some(s) => Some(s.clone()),
                None => None,
            },
            is_entry: self.is_entry,
        }
    }
}

/// The map that a list of keyed entries stands for; a later entry
/// overrides an earlier one with the same key.
pub open spec fn manifest_map(v: Seq<(String, ManifestChunk)>) -> Map<Seq<char>, ManifestChunkView>
    decreases v.len(),
{
    if v.len() == 0 {
        Map::empty()
    } else {
        manifest_map(v.drop_last()).insert(v.last().0@, v.last().1.view_of())
    }
}

/// No key occurs twice.
pub open spec fn unique_keys(v: Seq<(String, ManifestChunk)>) -> bool {
    forall|i: int, j: int| 0 <= i < j < v.len() ==> #[trigger] v[i].0@ != #[trigger] v[j].0@
}

/// What `std::path::Path::file_name` returns for a path, as text.
pub uninterp spec fn path_file_name(p: Seq<char>) -> Option<Seq<char>>;

/// Calls `std::path::Path::file_name` on `p` and turns the result into a
/// `String` with `to_string_lossy`; the result is named `path_file_name`.
#[verifier::external_body]
fn file_name(p: &str) -> (r: Option<String>)
    ensures
        match r {
            Some(s) => path_file_name(p@) == Some(s@),
            None => path_file_name(p@) is None,
        },
{
    match std::path::Path::new(p).file_name() {
        Some(n) => Some(n.to_string_lossy().into_owned()),
        None => None,
    }
}

/// `f` ends in `.js`, `.mjs` or `.cjs`.
pub open spec fn is_js_file_name(f: Seq<char>) -> bool {
    ||| (f.len() >= 3 && f.subrange(f.len() - 3, f.len() as int) == seq!['.', 'j', 's'])
    ||| (f.len() >= 4 && f.subrange(f.len() - 4, f.len() as int) == seq!['.', 'm', 'j', 's'])
    ||| (f.len() >= 4 && f.subrange(f.len() - 4, f.len() as int) == seq!['.', 'c', 'j', 's'])
}

/// The manifest has no entry under `key`, or its entry there is not a
/// JavaScript file: an asset may take the key.
pub open spec fn spec_is_non_js_file(key: Seq<char>, m: Map<Seq<char>, ManifestChunkView>) -> bool {
    !m.dom().contains(key) || !is_js_file_name(m[key].0)
}

/// The key an asset is filed under: its first original file name, else
/// `_` and the file name of its output path.
pub open spec fn asset_key(asset: OutputAsset) -> Seq<char> {
    if asset.original_file_names.len() > 0 {
        asset.original_file_names@[0]@
    } else {
        seq!['_'] + path_file_name(asset.filename@)->0
    }
}

/// The entry for an asset filed under `src`.
pub open spec fn asset_entry(asset: OutputAsset, src: Seq<char>) -> ManifestChunkView {
    (asset.filename@, Some(src), false)
}

/// `m` with `e` filed under `key`, unless a JavaScript chunk holds the key.
pub open spec fn file_unless_js(
    m: Map<Seq<char>, ManifestChunkView>,
    key: Seq<char>,
    e: ManifestChunkView,
) -> Map<Seq<char>, ManifestChunkView> {
    if spec_is_non_js_file(key, m) {
        m.insert(key, e)
    } else {
        m
    }
}

/// `m` with `e` filed under each of `keys`, in order, where no JavaScript
/// chunk holds the key.
pub open spec fn file_under_all(
    m: Map<Seq<char>, ManifestChunkView>,
    keys: Seq<Seq<char>>,
    e: ManifestChunkView,
) -> Map<Seq<char>, ManifestChunkView>
    decreases keys.len(),
{
    if keys.len() == 0 {
        m
    } else {
        file_unless_js(file_under_all(m, keys.drop_last(), e), keys.last(), e)
    }
}

/// The manifest after an asset is added: an asset without names is left
/// out; otherwise its entry is filed under its key and under each of its
/// original file names, wherever no JavaScript chunk already holds the key.
pub open spec fn with_asset(
    m: Map<Seq<char>, ManifestChunkView>,
    asset: OutputAsset,
) -> Map<Seq<char>, ManifestChunkView> {
    if asset.names.len() == 0 {
        m
    } else {
        let key = asset_key(asset);
        let e = asset_entry(asset, key);
        file_under_all(
            file_unless_js(m, key, e),
            asset.original_file_names@.map_values(|s: String| s@),
            e,
        )
    }
}

/// An entry that is a JavaScript file is never replaced by an asset: after
/// an asset is added, a key whose entry was a JavaScript file keeps it.
pub proof fn lemma_javascript_entries_kept(
    m: Map<Seq<char>, ManifestChunkView>,
    asset: OutputAsset,
    key: Seq<char>,
)
    requires
        m.dom().contains(key),
        is_js_file_name(m[key].0),
    ensures
        with_asset(m, asset).dom().contains(key),
        with_asset(m, asset)[key] == m[key],
{
    if asset.names.len() > 0 {
        let k = asset_key(asset);
        let e = asset_entry(asset, k);
        let m1 = file_unless_js(m, k, e);
        assert(m1.dom().contains(key) && m1[key] == m[key]);
        lemma_file_under_all_keeps_js(m1, asset.original_file_names@.map_values(|s: String| s@), e, key);
    }
}

proof fn lemma_file_under_all_keeps_js(
    m: Map<Seq<char>, ManifestChunkView>,
    keys: Seq<Seq<char>>,
    e: ManifestChunkView,
    key: Seq<char>,
)
    requires
        m.dom().contains(key),
        is_js_file_name(m[key].0),
    ensures
        file_under_all(m, keys, e).dom().contains(key),
        file_under_all(m, keys, e)[key] == m[key],
    decreases keys.len(),
{
    if keys.len() > 0 {
        lemma_file_under_all_keeps_js(m, keys.drop_last(), e, key);
    }
}

/// The entry under `key`, if any.
fn lookup(manifest: &Vec<(String, ManifestChunk)>, key: &str) -> (r: Option<usize>)
    requires
        unique_keys(manifest@),
    ensures
        match r {
            Some(i) => i < manifest.len() && manifest@[i as int].0@ == key@ && manifest_map(
                manifest@,
            ).dom().contains(key@) && manifest_map(manifest@)[key@]
                == manifest@[i as int].1.view_of(),
            None => !manifest_map(manifest@).dom().contains(key@),
        },
{
    let mut i: usize = 0;
    while i < manifest.len()
        invariant
            unique_keys(manifest@),
            i <= manifest.len(),
            forall|j: int| 0 <= j < i ==> manifest@[j].0@ != key@,
        decreases manifest.len() - i,
    {
        if str_eq(manifest[i].0.as_str(), key) {
            proof {
                lemma_manifest_map_at(manifest@, i as int);
            }
            return Some(i);
        }
        i = i + 1;
    }
    proof {
        lemma_manifest_map_dom(manifest@, key@);
    }
    None
}

proof fn lemma_manifest_map_dom(v: Seq<(String, ManifestChunk)>, k: Seq<char>)
    ensures
        manifest_map(v).dom().contains(k) <==> exists|i: int| 0 <= i < v.len() && #[trigger] v[i].0@ == k,
    decreases v.len(),
{
    if v.len() > 0 {
        lemma_manifest_map_dom(v.drop_last(), k);
        if manifest_map(v).dom().contains(k) && k != v.last().0@ {
            let i = choose|i: int| 0 <= i < v.drop_last().len() && #[trigger] v.drop_last()[i].0@ == k;
            assert(v[i].0@ == k);
        }
        if exists|i: int| 0 <= i < v.len() && #[trigger] v[i].0@ == k {
            let i = choose|i: int| 0 <= i < v.len() && #[trigger] v[i].0@ == k;
            if i < v.len() - 1 {
                assert(v.drop_last()[i].0@ == k);
            }
        }
    }
}

proof fn lemma_manifest_map_at(v: Seq<(String, ManifestChunk)>, i: int)
    requires
        unique_keys(v),
        0 <= i < v.len(),
    ensures
        manifest_map(v).dom().contains(v[i].0@),
        manifest_map(v)[v[i].0@] == v[i].1.view_of(),
    decreases v.len(),
{
    if i < v.len() - 1 {
        assert(unique_keys(v.drop_last()));
        lemma_manifest_map_at(v.drop_last(), i);
        assert(v[i].0@ != v[v.len() - 1].0@);
    }
}

proof fn lemma_manifest_map_update(v: Seq<(String, ManifestChunk)>, i: int, p: (String, ManifestChunk))
    requires
        unique_keys(v),
        0 <= i < v.len(),
        v[i].0@ == p.0@,
    ensures
        manifest_map(v.update(i, p)) == manifest_map(v).insert(p.0@, p.1.view_of()),
        unique_keys(v.update(i, p)),
    decreases v.len(),
{
    let w = v.update(i, p);
    if i == v.len() - 1 {
        assert(w.drop_last() =~= v.drop_last());
        assert(manifest_map(w) =~= manifest_map(v).insert(p.0@, p.1.view_of()));
    } else {
        let d = v.drop_last();
        assert(w.drop_last() =~= d.update(i, p));
        assert(unique_keys(d));
        lemma_manifest_map_update(d, i, p);
        assert(v[i].0@ != v[v.len() - 1].0@);
        assert(manifest_map(w) =~= manifest_map(v).insert(p.0@, p.1.view_of()));
    }
    assert forall|a: int, b: int| 0 <= a < b < w.len() implies #[trigger] w[a].0@ != #[trigger] w[b].0@ by {
        assert(v[a].0@ != v[b].0@);
    }
}

/// Files `entry` under `key`, replacing an earlier entry with that key.
fn insert_entry(manifest: &mut Vec<(String, ManifestChunk)>, key: String, entry: ManifestChunk)
    requires
        unique_keys(old(manifest)@),
    ensures
        unique_keys(final(manifest)@),
        manifest_map(final(manifest)@) == manifest_map(old(manifest)@).insert(key@, entry.view_of()),
{
    match lookup(manifest, key.as_str()) {
        Some(i) => {
            let ghost before = manifest@;
            let ghost p = (key, entry);
            manifest.set(i, (key, entry));
            proof {
                lemma_manifest_map_update(before, i as int, p);
            }
        },
        None => {
            let ghost before = manifest@;
            proof {
                lemma_manifest_map_dom(before, key@);
            }
            manifest.push((key, entry));
            proof {
                assert(manifest@.drop_last() =~= before);
                assert forall|a: int, b: int| 0 <= a < b < manifest@.len() implies #[trigger] manifest@[a].0@
                    != #[trigger] manifest@[b].0@ by {
                    if b < before.len() {
                        assert(before[a].0@ != before[b].0@);
                    } else {
                        assert(before[a].0@ == manifest@[a].0@);
                    }
                }
            }
        },
    }
}

/// Whether an asset may be filed under `key`: the manifest has no entry
/// there, or that entry is not a JavaScript file.
pub fn is_non_js_file(key: &str, manifest: &Vec<(String, ManifestChunk)>) -> (r: bool)
    requires
        unique_keys(manifest@),
    ensures
        r == spec_is_non_js_file(key@, manifest_map(manifest@)),
{
    match lookup(manifest, key) {
        None => true,
        Some(i) => {
            let f = manifest[i].1.file.as_str();
            proof {
                reveal_strlit(".js");
                reveal_strlit(".mjs");
                reveal_strlit(".cjs");
            }
            assert(".js"@ =~= seq!['.', 'j', 's']);
            assert(".mjs"@ =~= seq!['.', 'm', 'j', 's']);
            assert(".cjs"@ =~= seq!['.', 'c', 'j', 's']);
            !(ends_with(f, ".js") || ends_with(f, ".mjs") || ends_with(f, ".cjs"))
        },
    }
}

/// The entry for an asset filed under `src`.
fn create_asset(asset: &OutputAsset, src: &String) -> (r: ManifestChunk)
    ensures
        r.view_of() == asset_entry(*asset, src@),
{
    ManifestChunk { file: asset.filename.clone(), src: Some(src.clone()), is_entry: false }
}

/// Files an asset in the manifest; see `with_asset`. An asset without
/// original file names needs a file name in its output path.
pub fn add_asset(manifest: &mut Vec<(String, ManifestChunk)>, asset: &OutputAsset)
    requires
        unique_keys(old(manifest)@),
        asset.original_file_names.len() > 0 || path_file_name(asset.filename@) is Some,
    ensures
        unique_keys(final(manifest)@),
        manifest_map(final(manifest)@) == with_asset(manifest_map(old(manifest)@), *asset),
{
    if asset.names.len() == 0 {
        return;
    }
    let file: String = if asset.original_file_names.len() > 0 {
        asset.original_file_names[0].clone()
    } else {
        let mut f = String::from_str("_");
        proof {
            reveal_strlit("_");
        }
        if let Some(base) = file_name(asset.filename.as_str()) {
            f.append(base.as_str());
            assert(f@ =~= seq!['_'] + base@);
        }
        f
    };
    assert(file@ == asset_key(*asset));
    let asset_manifest = create_asset(asset, &file);
    let ghost e = asset_entry(*asset, file@);
    let ghost m0 = manifest_map(manifest@);
    if is_non_js_file(file.as_str(), manifest) {
        insert_entry(manifest, file.clone(), asset_manifest.copy());
    }
    let ghost m1 = manifest_map(manifest@);
    assert(m1 == file_unless_js(m0, file@, e));
    let names = &asset.original_file_names;
    let ghost keys = names@.map_values(|s: String| s@);
    let mut i: usize = 0;
    while i < names.len()
        invariant
            names@ == asset.original_file_names@,
            keys == names@.map_values(|s: String| s@),
            i <= names.len(),
            asset_manifest.view_of() == e,
            unique_keys(manifest@),
            manifest_map(manifest@) == file_under_all(m1, keys.take(i as int), e),
        decreases names.len() - i,
    {
        assert(keys.take(i + 1).drop_last() =~= keys.take(i as int));
        assert(keys.take(i + 1).last() == names@[i as int]@);
        if is_non_js_file(names[i].as_str(), manifest) {
            insert_entry(manifest, names[i].clone(), asset_manifest.copy());
        }
        i = i + 1;
    }
    assert(keys.take(names.len() as int) =~= keys);
}

/// The keyed entries of a list, as characters.
pub open spec fn entries(v: Seq<(String, ManifestChunk)>) -> Set<(Seq<char>, ManifestChunkView)> {
    Set::new(
        |p: (Seq<char>, ManifestChunkView)|
            exists|i: int| 0 <= i < v.len() && #[trigger] v[i].0@ == p.0 && v[i].1.view_of() == p.1,
    )
}

/// Keys ascend strictly, in the order of `str`.
pub open spec fn keys_ascending(v: Seq<(String, ManifestChunk)>) -> bool {
    forall|i: int, j: int|
        0 <= i < j < v.len() ==> lex_le(#[trigger] v[i].0@, #[trigger] v[j].0@) && v[i].0@ != v[j].0@
}

proof fn lemma_map_from_entries(v: Seq<(String, ManifestChunk)>, w: Seq<(String, ManifestChunk)>)
    requires
        unique_keys(v),
        unique_keys(w),
        entries(v) == entries(w),
    ensures
        manifest_map(v) == manifest_map(w),
{
    assert forall|k: Seq<char>| #[trigger] manifest_map(v).dom().contains(k) == manifest_map(
        w,
    ).dom().contains(k) by {
        lemma_manifest_map_dom(v, k);
        lemma_manifest_map_dom(w, k);
        if manifest_map(v).dom().contains(k) {
            let i = choose|i: int| 0 <= i < v.len() && #[trigger] v[i].0@ == k;
            assert(entries(v).contains((k, v[i].1.view_of())));
            assert(entries(w).contains((k, v[i].1.view_of())));
            let j = choose|j: int| 0 <= j < w.len() && #[trigger] w[j].0@ == k && w[j].1.view_of()
                == v[i].1.view_of();
        }
        if manifest_map(w).dom().contains(k) {
            let j = choose|j: int| 0 <= j < w.len() && #[trigger] w[j].0@ == k;
            assert(entries(w).contains((k, w[j].1.view_of())));
            assert(entries(v).contains((k, w[j].1.view_of())));
            let i = choose|i: int| 0 <= i < v.len() && #[trigger] v[i].0@ == k && v[i].1.view_of()
                == w[j].1.view_of();
        }
    }
    assert forall|k: Seq<char>| #[trigger] manifest_map(v).dom().contains(k) implies manifest_map(w)[k]
        == manifest_map(v)[k] by {
        lemma_manifest_map_dom(v, k);
        let i = choose|i: int| 0 <= i < v.len() && #[trigger] v[i].0@ == k;
        lemma_manifest_map_at(v, i);
        assert(entries(v).contains((k, v[i].1.view_of())));
        assert(entries(w).contains((k, v[i].1.view_of())));
        let j = choose|j: int| 0 <= j < w.len() && #[trigger] w[j].0@ == k && w[j].1.view_of()
            == v[i].1.view_of();
        lemma_manifest_map_at(w, j);
    }
    assert(manifest_map(v).dom() =~= manifest_map(w).dom());
    assert(manifest_map(v) =~= manifest_map(w));
}

/// The manifest's entries ordered by key, as `BTreeMap` keeps them: the
/// same map, with keys ascending.
pub fn sorted_manifest(manifest: &Vec<(String, ManifestChunk)>) -> (r: Vec<(String, ManifestChunk)>)
    requires
        unique_keys(manifest@),
    ensures
        unique_keys(r@),
        keys_ascending(r@),
        manifest_map(r@) == manifest_map(manifest@),
{
    let mut out: Vec<(String, ManifestChunk)> = Vec::new();
    let n = manifest.len();
    let mut i: usize = 0;
    assert(entries(out@) =~= entries(manifest@.take(0)));
    while i < n
        invariant
            n == manifest.len(),
            unique_keys(manifest@),
            i <= n,
            unique_keys(out@),
            keys_ascending(out@),
            entries(out@) == entries(manifest@.take(i as int)),
        decreases n - i,
    {
        let key = manifest[i].0.clone();
        let entry = manifest[i].1.copy();
        let ghost kv = key@;
        let ghost ev = entry.view_of();
        assert(kv == manifest@[i as int].0@);
        // The new key differs from every key placed so far.
        assert forall|q: int| 0 <= q < out.len() implies #[trigger] out@[q].0@ != kv by {
            assert(entries(out@).contains((out@[q].0@, out@[q].1.view_of())));
            assert(entries(manifest@.take(i as int)).contains((out@[q].0@, out@[q].1.view_of())));
            let t = choose|t: int| 0 <= t < i && #[trigger] manifest@.take(i as int)[t].0@ == out@[q].0@
                && manifest@.take(i as int)[t].1.view_of() == out@[q].1.view_of();
            assert(manifest@[t].0@ != manifest@[i as int].0@);
        }
        let mut p: usize = 0;
        while p < out.len() && str_le(out[p].0.as_str(), key.as_str())
            invariant
                p <= out.len(),
                key@ == kv,
                forall|q: int| 0 <= q < p ==> lex_le(#[trigger] out@[q].0@, kv),
            decreases out.len() - p,
        {
            p = p + 1;
        }
        let ghost before = out@;
        let ghost pair = (key, entry);
        out.insert(p, (key, entry));
        proof {
            let after = out@;
            assert(after =~= before.insert(p as int, pair));
            assert(after[p as int] == pair);
            assert forall|q: int| 0 <= q < after.len() && q != p implies #[trigger] after[q] == (if q < p {
                before[q]
            } else {
                before[q - 1]
            }) by {}
            if p < before.len() {
                lemma_lex_le_total(before[p as int].0@, kv);
            }
            assert forall|a: int, b: int| 0 <= a < b < after.len() implies lex_le(
                #[trigger] after[a].0@,
                #[trigger] after[b].0@,
            ) && after[a].0@ != after[b].0@ by {
                if b < p {
                } else if b == p {
                    assert(before[a].0@ != kv);
                } else if a < p {
                    assert(before[a].0@ != before[b - 1].0@);
                    if p < before.len() {
                        lemma_lex_le_transitive(before[a].0@, kv, before[p as int].0@);
                        if b - 1 > p {
                            lemma_lex_le_transitive(before[a].0@, before[p as int].0@, before[b - 1].0@);
                        }
                    }
                } else if a == p {
                    assert(before[b - 1].0@ != kv);
                    if b - 1 > p {
                        lemma_lex_le_transitive(kv, before[p as int].0@, before[b - 1].0@);
                    }
                } else {
                }
            }
            assert forall|a: int, b: int| 0 <= a < b < after.len() implies #[trigger] after[a].0@
                != #[trigger] after[b].0@ by {
                assert(lex_le(after[a].0@, after[b].0@) && after[a].0@ != after[b].0@);
            }
            let src = manifest@.take(i + 1);
            assert(src =~= manifest@.take(i as int).push(manifest@[i as int]));
            assert(entries(after) =~= entries(before).insert((kv, ev))) by {
                assert forall|x: (Seq<char>, ManifestChunkView)| entries(after).contains(x) implies entries(
                    before,
                ).insert((kv, ev)).contains(x) by {
                    let q = choose|q: int| 0 <= q < after.len() && #[trigger] after[q].0@ == x.0
                        && after[q].1.view_of() == x.1;
                    if q < p {
                        assert(before[q].0@ == x.0);
                    } else if q > p {
                        assert(before[q - 1].0@ == x.0);
                    }
                }
                assert forall|x: (Seq<char>, ManifestChunkView)| entries(before).insert((kv, ev)).contains(
                    x,
                ) implies entries(after).contains(x) by {
                    if x != (kv, ev) {
                        let q = choose|q: int| 0 <= q < before.len() && #[trigger] before[q].0@ == x.0
                            && before[q].1.view_of() == x.1;
                        if q < p {
                            assert(after[q].0@ == x.0);
                        } else {
                            assert(after[q + 1].0@ == x.0);
                        }
                    } else {
                        assert(after[p as int].0@ == x.0);
                    }
                }
            }
            assert(entries(src) =~= entries(manifest@.take(i as int)).insert((kv, ev))) by {
                assert forall|x: (Seq<char>, ManifestChunkView)| entries(src).contains(x) implies entries(
                    manifest@.take(i as int),
                ).insert((kv, ev)).contains(x) by {
                    let q = choose|q: int| 0 <= q < src.len() && #[trigger] src[q].0@ == x.0
                        && src[q].1.view_of() == x.1;
                    if q < i {
                        assert(manifest@.take(i as int)[q].0@ == x.0);
                    }
                }
                assert forall|x: (Seq<char>, ManifestChunkView)| entries(manifest@.take(i as int)).insert(
                    (kv, ev),
                ).contains(x) implies entries(src).contains(x) by {
                    if x != (kv, ev) {
                        let q = choose|q: int| 0 <= q < i && #[trigger] manifest@.take(i as int)[q].0@ == x.0
                            && manifest@.take(i as int)[q].1.view_of() == x.1;
                        assert(src[q].0@ == x.0);
                    } else {
                        assert(src[i as int].0@ == x.0);
                    }
                }
            }
        }
        i = i + 1;
    }
    assert(manifest@.take(n as int) =~= manifest@);
    proof {
        lemma_map_from_entries(out@, manifest@);
    }
    out
}

/// Files an asset in the manifest when it can be keyed, and says whether
/// it could: an asset with names but no original file names needs a file
/// name in its output path. An asset that cannot be keyed leaves the
/// manifest as it is.
pub fn try_add_asset(manifest: &mut Vec<(String, ManifestChunk)>, asset: &OutputAsset) -> (added:
    bool)
    requires
        unique_keys(old(manifest)@),
    ensures
        unique_keys(final(manifest)@),
        added == (asset.names.len() == 0 || asset.original_file_names.len() > 0 || path_file_name(
            asset.filename@,
        ) is Some),
        added ==> manifest_map(final(manifest)@) == with_asset(manifest_map(old(manifest)@), *asset),
        !added ==> final(manifest)@ == old(manifest)@,
{
    if asset.names.len() == 0 {
        return true;
    }
    if asset.original_file_names.len() == 0 {
        match file_name(asset.filename.as_str()) {
            Some(_) => {},
            None => {
                return false;
            },
        }
    }
    add_asset(manifest, asset);
    true
}

/// `f` is some stem followed by `ext`: it is its own first
/// `f.len() - ext.len()` characters followed by `ext`.
pub open spec fn has_extension(f: Seq<char>, ext: Seq<char>) -> bool {
    f.len() >= ext.len() && f == f.subrange(0, f.len() - ext.len()) + ext
}

/// A file name is a JavaScript file exactly when it ends in `.js`, `.mjs`
/// or `.cjs`: any stem followed by one of these is one, and a JavaScript
/// file name is its stem followed by one of these.
pub proof fn lemma_js_file_name_by_extension(f: Seq<char>, stem: Seq<char>)
    ensures
        (f == stem + seq!['.', 'j', 's'] || f == stem + seq!['.', 'm', 'j', 's'] || f == stem
            + seq!['.', 'c', 'j', 's']) ==> is_js_file_name(f),
        is_js_file_name(f) <==> (has_extension(f, seq!['.', 'j', 's']) || has_extension(
            f,
            seq!['.', 'm', 'j', 's'],
        ) || has_extension(f, seq!['.', 'c', 'j', 's'])),
{
    let js = seq!['.', 'j', 's'];
    let mjs = seq!['.', 'm', 'j', 's'];
    let cjs = seq!['.', 'c', 'j', 's'];
    if f == stem + js {
        assert(f.subrange(f.len() - 3, f.len() as int) =~= js);
    } else if f == stem + mjs {
        assert(f.subrange(f.len() - 4, f.len() as int) =~= mjs);
    } else if f == stem + cjs {
        assert(f.subrange(f.len() - 4, f.len() as int) =~= cjs);
    }
    if f.len() >= 3 {
        let p = f.subrange(0, f.len() - 3);
        if f.subrange(f.len() - 3, f.len() as int) == js {
            assert(f =~= p + js);
        }
        if f == p + js {
            assert(f.subrange(f.len() - 3, f.len() as int) =~= js);
        }
    }
    if f.len() >= 4 {
        let p = f.subrange(0, f.len() - 4);
        if f.subrange(f.len() - 4, f.len() as int) == mjs {
            assert(f =~= p + mjs);
        }
        if f == p + mjs {
            assert(f.subrange(f.len() - 4, f.len() as int) =~= mjs);
        }
        if f.subrange(f.len() - 4, f.len() as int) == cjs {
            assert(f =~= p + cjs);
        }
        if f == p + cjs {
            assert(f.subrange(f.len() - 4, f.len() as int) =~= cjs);
        }
    }
}

/// A key whose entry is a JavaScript chunk (its file is some stem followed
/// by `.js`, `.mjs` or `.cjs`) may not be taken by an asset, and adding any
/// asset leaves that entry as it was. A key with no entry, or whose entry's
/// file ends in none of these, may be taken.
pub proof fn lemma_script_entries_keep_their_key(
    m: Map<Seq<char>, ManifestChunkView>,
    asset: OutputAsset,
    key: Seq<char>,
    stem: Seq<char>,
)
    ensures
        m.dom().contains(key) && (m[key].0 == stem + seq!['.', 'j', 's'] || m[key].0 == stem
            + seq!['.', 'm', 'j', 's'] || m[key].0 == stem + seq!['.', 'c', 'j', 's']) ==> {
            &&& !spec_is_non_js_file(key, m)
            &&& with_asset(m, asset).dom().contains(key)
            &&& with_asset(m, asset)[key] == m[key]
        },
        !m.dom().contains(key) ==> spec_is_non_js_file(key, m),
        m.dom().contains(key) && !has_extension(m[key].0, seq!['.', 'j', 's']) && !has_extension(
            m[key].0,
            seq!['.', 'm', 'j', 's'],
        ) && !has_extension(m[key].0, seq!['.', 'c', 'j', 's']) ==> spec_is_non_js_file(key, m),
{
    if m.dom().contains(key) {
        lemma_js_file_name_by_extension(m[key].0, stem);
        if m[key].0 == stem + seq!['.', 'j', 's'] || m[key].0 == stem + seq!['.', 'm', 'j', 's']
            || m[key].0 == stem + seq!['.', 'c', 'j', 's'] {
            lemma_javascript_entries_kept(m, asset, key);
        }
    }
}

proof fn lemma_file_under_all_at(
    m: Map<Seq<char>, ManifestChunkView>,
    keys: Seq<Seq<char>>,
    e: ManifestChunkView,
    k: Seq<char>,
)
    ensures
        file_under_all(m, keys, e).dom().contains(k) <==> (m.dom().contains(k) || keys.contains(k)),
        keys.contains(k) && spec_is_non_js_file(k, m) ==> file_under_all(m, keys, e)[k] == e,
        !(keys.contains(k) && spec_is_non_js_file(k, m)) && m.dom().contains(k) ==> file_under_all(
            m,
            keys,
            e,
        )[k] == m[k],
    decreases keys.len(),
{
    if keys.len() > 0 {
        let d = keys.drop_last();
        lemma_file_under_all_at(m, d, e, k);
        if d.contains(k) {
            let j = choose|j: int| 0 <= j < d.len() && d[j] == k;
            assert(keys[j] == k);
        }
        if keys.contains(k) && keys.last() != k {
            let j = choose|j: int| 0 <= j < keys.len() && keys[j] == k;
            assert(d[j] == k);
        }
        if keys.last() == k {
            assert(keys.contains(k)) by {
                assert(keys[keys.len() - 1] == k);
            }
        }
    }
}

/// Where an asset with names is filed: under its key (its first original
/// file name, else `_` and the file name of its output path) and under each
/// of its original file names, with the entry of its output file, the key as
/// its source and no entry flag; except where a JavaScript chunk (a file
/// ending in `.js`, `.mjs` or `.cjs`) already holds the key, which keeps
/// its entry, as does every other key. An asset without names changes
/// nothing.
pub proof fn lemma_asset_filing(
    m: Map<Seq<char>, ManifestChunkView>,
    asset: OutputAsset,
    k: Seq<char>,
)
    ensures
        asset.names.len() == 0 ==> with_asset(m, asset) == m,
        asset.names.len() > 0 ==> {
            let key0 = if asset.original_file_names.len() > 0 {
                asset.original_file_names@[0]@
            } else {
                seq!['_'] + path_file_name(asset.filename@)->0
            };
            let e: ManifestChunkView = (asset.filename@, Some(key0), false);
            let named = k == key0 || asset.original_file_names@.map_values(|s: String| s@).contains(
                k,
            );
            let js_held = m.dom().contains(k) && (has_extension(m[k].0, seq!['.', 'j', 's'])
                || has_extension(m[k].0, seq!['.', 'm', 'j', 's']) || has_extension(
                m[k].0,
                seq!['.', 'c', 'j', 's'],
            ));
            &&& with_asset(m, asset).dom().contains(k) <==> (m.dom().contains(k) || named)
            &&& named && !js_held ==> with_asset(m, asset)[k] == e
            &&& !(named && !js_held) && m.dom().contains(k) ==> with_asset(m, asset)[k] == m[k]
        },
{
    if asset.names.len() > 0 {
        let key0 = asset_key(asset);
        let e = asset_entry(asset, key0);
        let keys = asset.original_file_names@.map_values(|s: String| s@);
        let m1 = file_unless_js(m, key0, e);
        lemma_file_under_all_at(m1, keys, e, k);
        if m.dom().contains(k) {
            lemma_js_file_name_by_extension(m[k].0, Seq::empty());
        }
        if k == key0 && spec_is_non_js_file(k, m) {
            assert(m1[k] == e);
            if keys.contains(k) {
                assert(file_under_all(m1, keys, e)[k] == e || !spec_is_non_js_file(k, m1));
            }
        }
    }
}

} // verus!
