//! `GetExportedNames` of ECMA-262 (sec-getexportednames) over the module
//! table: a depth-first walk along `export *` edges that shares one set of
//! visited modules across the whole walk.
use std::collections::HashSet;
use vstd::prelude::*;
use vstd::set_lib::{lemma_int_range, lemma_len_subset, set_int_range};

use crate::module::{Module, ModuleIdx, NormalModule};
use crate::text::{str_eq, views};

verus! {

broadcast use vstd::std_specs::hash::group_hash_axioms;

/// Position `j` of the table holds a normal module.
pub open spec fn normal_at(modules: Seq<Module>, j: int) -> bool {
    0 <= j < modules.len() && modules[j] is Normal
}

/// The normal module at position `j` (meaningful where `normal_at` holds).
pub open spec fn node(modules: Seq<Module>, j: int) -> NormalModule {
    *modules[j]->Normal_0
}

/// Every `export *` target of `m` is a position of the table.
pub open spec fn targets_in_table(m: NormalModule, len: nat) -> bool {
    forall|k: int|
        0 <= k < m.spec_star_export_module_ids().len()
            ==> #[trigger] m.spec_star_export_module_ids()[k] < len
}

/// The module table is consistent: each normal module records its own
/// position, and its `export *` targets are positions of the table.
pub open spec fn graph_wf(modules: Seq<Module>) -> bool {
    forall|j: int|
        #![trigger modules[j]]
        normal_at(modules, j) ==> node(modules, j).idx == j && targets_in_table(
            node(modules, j),
            modules.len(),
        )
}

/// Each target in `roots` that is a normal module lies in `w`.
pub open spec fn covers(modules: Seq<Module>, w: Set<ModuleIdx>, roots: Seq<ModuleIdx>) -> bool {
    forall|k: int|
        0 <= k < roots.len() && normal_at(modules, roots[k] as int) ==> w.contains(
            #[trigger] roots[k],
        )
}

/// Outside `a`, `w` holds only normal modules, together with the normal
/// modules they re-export with `export *`.
pub open spec fn closed(modules: Seq<Module>, w: Set<ModuleIdx>, a: Set<ModuleIdx>) -> bool {
    forall|x: ModuleIdx|
        #[trigger] w.contains(x) && !a.contains(x) ==> normal_at(modules, x as int) && covers(
            modules,
            w,
            node(modules, x as int).spec_star_export_module_ids(),
        )
}

/// `w` contains `a` and the normal modules among `roots`, and is closed
/// along `export *` edges outside `a`.
pub open spec fn admissible(
    modules: Seq<Module>,
    w: Set<ModuleIdx>,
    a: Set<ModuleIdx>,
    roots: Seq<ModuleIdx>,
) -> bool {
    &&& a.subset_of(w)
    &&& covers(modules, w, roots)
    &&& closed(modules, w, a)
}

/// `v` is the least admissible set: the modules reachable from `roots`
/// along `export *` edges without passing through `a`, together with `a`.
pub open spec fn least_admissible(
    modules: Seq<Module>,
    v: Set<ModuleIdx>,
    a: Set<ModuleIdx>,
    roots: Seq<ModuleIdx>,
) -> bool {
    &&& admissible(modules, v, a, roots)
    &&& forall|w: Set<ModuleIdx>| #[trigger]
        admissible(modules, w, a, roots) ==> v.subset_of(w)
}

/// The characters of `default`.
pub open spec fn default_name() -> Seq<char> {
    seq!['d', 'e', 'f', 'a', 'u', 'l', 't']
}

/// The names that `m` itself exports, without `default` unless asked for.
pub open spec fn own_names(m: NormalModule, include_default: bool) -> Set<Seq<char>> {
    Set::new(
        |n: Seq<char>|
            views(m.ecma_view.named_exports@).contains(n) && (include_default || n
                != default_name()),
    )
}

/// The names, without `default`, that the normal modules at the positions
/// in `s` themselves export.
pub open spec fn names_of_modules(modules: Seq<Module>, s: Set<ModuleIdx>) -> Set<Seq<char>> {
    Set::new(
        |n: Seq<char>|
            exists|x: ModuleIdx| #[trigger]
                s.contains(x) && own_names(node(modules, x as int), false).contains(n),
    )
}

/// The names held in a list of strings.
pub open spec fn name_set(v: Seq<String>) -> Set<Seq<char>> {
    views(v).to_set()
}

/// Positions of the table not yet visited.
pub open spec fn unvisited(v: Set<ModuleIdx>, len: nat) -> Set<int> {
    Set::new(|i: int| 0 <= i < len && !v.contains(i as ModuleIdx))
}

proof fn lemma_unvisited_shrinks(v: Set<ModuleIdx>, v2: Set<ModuleIdx>, r: ModuleIdx, len: nat)
    requires
        v.subset_of(v2),
        !v.contains(r),
        v2.contains(r),
        r < len,
    ensures
        unvisited(v2, len).len() < unvisited(v, len).len(),
{
    lemma_int_range(0, len as int);
    let u = unvisited(v, len);
    let u2 = unvisited(v2, len);
    assert(u.subset_of(set_int_range(0, len as int)));
    lemma_len_subset(u, set_int_range(0, len as int));
    assert(u.contains(r as int));
    assert(u2.subset_of(u.remove(r as int)));
    lemma_len_subset(u2, u.remove(r as int));
}

proof fn lemma_prefix_transitive(a: Seq<String>, b: Seq<String>, c: Seq<String>)
    requires
        a.is_prefix_of(b),
        b.is_prefix_of(c),
    ensures
        a.is_prefix_of(c),
{
    assert forall|i: int| 0 <= i < a.len() implies a[i] == c[i] by {
        assert(a[i] == b.subrange(0, a.len() as int)[i]);
        assert(b[i] == c.subrange(0, b.len() as int)[i]);
    }
    assert(a =~= c.subrange(0, a.len() as int));
}

/// Adds `s` to `ret` unless `ret` already holds those characters.
fn insert_name(ret: &mut Vec<String>, s: String)
    ensures
        name_set(final(ret)@) == name_set(old(ret)@).insert(s@),
        old(ret)@.is_prefix_of(final(ret)@),
        views(old(ret)@).no_duplicates() ==> views(final(ret)@).no_duplicates(),
{
    let mut i: usize = 0;
    while i < ret.len()
        invariant
            i <= ret.len(),
            forall|j: int| 0 <= j < i ==> ret@[j]@ != s@,
        decreases ret.len() - i,
    {
        if str_eq(ret[i].as_str(), s.as_str()) {
            proof {
                assert(views(ret@)[i as int] == s@);
                assert(name_set(ret@) =~= name_set(ret@).insert(s@));
                assert(ret@.is_prefix_of(ret@));
            }
            return;
        }
        i = i + 1;
    }
    let ghost before = ret@;
    ret.push(s);
    proof {
        assert(views(ret@) =~= views(before).push(s@));
        views(before).lemma_push_to_set_commute(s@);
        assert(before.is_prefix_of(ret@));
        if views(before).no_duplicates() {
            assert forall|a: int, b: int|
                0 <= a < views(ret@).len() && 0 <= b < views(ret@).len() && a != b implies views(
                ret@,
            )[a] != views(ret@)[b] by {
                if a < before.len() && b < before.len() {
                } else if a < before.len() {
                    assert(before[a]@ != s@);
                } else if b < before.len() {
                    assert(before[b]@ != s@);
                }
            }
        }
    }
}

impl NormalModule {
    /// Collects the names exported by this module and, along `export *`
    /// edges, by every module reachable from it that `export_star_set` has
    /// not seen; modules reached along the edges contribute no `default`.
    /// `export_star_set` gains every module visited. `ret` is the set of
    /// names kept as a list: a name joins it only if it is not there yet.
    pub fn get_exported_names(
        &self,
        export_star_set: &mut HashSet<ModuleIdx>,
        modules: &Vec<Module>,
        include_default: bool,
        ret: &mut Vec<String>,
    )
        requires
            graph_wf(modules@),
            self.idx < modules.len(),
            targets_in_table(*self, modules.len() as nat),
        ensures
            old(export_star_set)@.contains(self.idx) ==> final(export_star_set)@ == old(
                export_star_set,
            )@ && final(ret)@ == old(ret)@,
            !old(export_star_set)@.contains(self.idx) ==> {
                let a = old(export_star_set)@.insert(self.idx);
                &&& least_admissible(
                    modules@,
                    final(export_star_set)@,
                    a,
                    self.spec_star_export_module_ids(),
                )
                &&& name_set(final(ret)@) == name_set(old(ret)@) + own_names(
                    *self,
                    include_default,
                ) + names_of_modules(modules@, final(export_star_set)@.difference(a))
            },
            old(ret)@.is_prefix_of(final(ret)@),
            views(old(ret)@).no_duplicates() ==> views(final(ret)@).no_duplicates(),
    {
        self.collect_exported_names(
            export_star_set,
            modules,
            include_default,
            ret,
            Ghost(unvisited(export_star_set@, modules.len() as nat).len()),
        );
    }

    fn collect_exported_names(
        &self,
        export_star_set: &mut HashSet<ModuleIdx>,
        modules: &Vec<Module>,
        include_default: bool,
        ret: &mut Vec<String>,
        Ghost(budget): Ghost<nat>,
    )
        requires
            graph_wf(modules@),
            self.idx < modules.len(),
            targets_in_table(*self, modules.len() as nat),
            budget == unvisited(old(export_star_set)@, modules.len() as nat).len(),
        ensures
            old(export_star_set)@.contains(self.idx) ==> final(export_star_set)@ == old(
                export_star_set,
            )@ && final(ret)@ == old(ret)@,
            !old(export_star_set)@.contains(self.idx) ==> {
                let a = old(export_star_set)@.insert(self.idx);
                &&& least_admissible(
                    modules@,
                    final(export_star_set)@,
                    a,
                    self.spec_star_export_module_ids(),
                )
                &&& name_set(final(ret)@) == name_set(old(ret)@) + own_names(
                    *self,
                    include_default,
                ) + names_of_modules(modules@, final(export_star_set)@.difference(a))
            },
            old(ret)@.is_prefix_of(final(ret)@),
            views(old(ret)@).no_duplicates() ==> views(final(ret)@).no_duplicates(),
        decreases budget,
    {
        if export_star_set.contains(&self.idx) {
            assert(old(ret)@.is_prefix_of(ret@));
            return;
        }
        let ghost v0 = export_star_set@;
        let ghost ret0 = ret@;
        let ghost a = v0.insert(self.idx);
        export_star_set.insert(self.idx);
        let ids = self.star_export_module_ids();
        let n = modules.len();
        let mut i: usize = 0;
        assert(ret0.is_prefix_of(ret@));
        assert(export_star_set@.difference(a) =~= Set::empty());
        assert(name_set(ret@) =~= name_set(ret0) + names_of_modules(
            modules@,
            export_star_set@.difference(a),
        ));
        assert forall|w: Set<ModuleIdx>| #[trigger]
            admissible(modules@, w, a, ids@.take(0)) implies export_star_set@.subset_of(w) by {
            assert(export_star_set@ =~= a);
        }
        while i < ids.len()
            invariant
                graph_wf(modules@),
                n == modules.len(),
                ids@ == self.spec_star_export_module_ids(),
                targets_in_table(*self, modules.len() as nat),
                i <= ids.len(),
                !v0.contains(self.idx),
                self.idx < n,
                a == v0.insert(self.idx),
                budget == unvisited(v0, n as nat).len(),
                admissible(modules@, export_star_set@, a, ids@.take(i as int)),
                forall|w: Set<ModuleIdx>| #[trigger]
                    admissible(modules@, w, a, ids@.take(i as int)) ==> export_star_set@.subset_of(
                        w,
                    ),
                name_set(ret@) == name_set(ret0) + names_of_modules(
                    modules@,
                    export_star_set@.difference(a),
                ),
                ret0.is_prefix_of(ret@),
                views(ret0).no_duplicates() ==> views(ret@).no_duplicates(),
            decreases ids.len() - i,
        {
            let t = ids[i];
            assert(t < n);
            let ghost vi = export_star_set@;
            let ghost reti = ret@;
            assert(ids@.take(i + 1) =~= ids@.take(i as int).push(t));
            match &modules[t] {
                Module::Normal(m) => {
                    let m: &NormalModule = &**m;
                    assert(normal_at(modules@, t as int));
                    assert(*m == node(modules@, t as int));
                    proof {
                        lemma_unvisited_shrinks(v0, vi, self.idx, n as nat);
                    }
                    m.collect_exported_names(
                        export_star_set,
                        modules,
                        false,
                        ret,
                        Ghost(unvisited(vi, n as nat).len()),
                    );
                    proof {
                        let v2 = export_star_set@;
                        let roots = ids@.take(i + 1);
                        if vi.contains(t) {
                            assert(admissible(modules@, v2, a, roots));
                            assert forall|w: Set<ModuleIdx>| #[trigger]
                                admissible(modules@, w, a, roots) implies v2.subset_of(w) by {
                                assert(admissible(modules@, w, a, ids@.take(i as int)));
                            }
                        } else {
                            let a2 = vi.insert(t);
                            let mids = m.spec_star_export_module_ids();
                            // closure outside `a`
                            assert forall|x: ModuleIdx| #[trigger]
                                v2.contains(x) && !a.contains(x) implies normal_at(
                                modules@,
                                x as int,
                            ) && covers(
                                modules@,
                                v2,
                                node(modules@, x as int).spec_star_export_module_ids(),
                            ) by {
                                if vi.contains(x) {
                                    assert(vi.contains(x) && !a.contains(x));
                                    let ns = node(modules@, x as int).spec_star_export_module_ids();
                                    assert forall|k: int|
                                        0 <= k < ns.len() && normal_at(
                                            modules@,
                                            ns[k] as int,
                                        ) implies v2.contains(#[trigger] ns[k]) by {
                                        assert(vi.contains(ns[k]));
                                    }
                                } else if x == t {
                                } else {
                                    assert(v2.contains(x) && !a2.contains(x));
                                }
                            }
                            assert(covers(modules@, v2, roots)) by {
                                assert forall|k: int|
                                    0 <= k < roots.len() && normal_at(
                                        modules@,
                                        roots[k] as int,
                                    ) implies v2.contains(#[trigger] roots[k]) by {
                                    if k < i {
                                        assert(ids@.take(i as int)[k] == roots[k]);
                                        assert(vi.contains(roots[k]));
                                    }
                                }
                            }
                            assert(admissible(modules@, v2, a, roots));
                            assert forall|w: Set<ModuleIdx>| #[trigger]
                                admissible(modules@, w, a, roots) implies v2.subset_of(w) by {
                                assert(covers(modules@, w, ids@.take(i as int))) by {
                                    assert forall|k: int|
                                        0 <= k < ids@.take(i as int).len() && normal_at(
                                            modules@,
                                            ids@.take(i as int)[k] as int,
                                        ) implies w.contains(#[trigger] ids@.take(i as int)[k]) by {
                                        assert(roots[k] == ids@.take(i as int)[k]);
                                    }
                                }
                                assert(admissible(modules@, w, a, ids@.take(i as int)));
                                assert(vi.subset_of(w));
                                assert(roots[i as int] == t);
                                assert(w.contains(t));
                                assert(w.contains(t) && !a.contains(t));
                                assert(closed(modules@, w, a2)) by {
                                    assert forall|x: ModuleIdx| #[trigger]
                                        w.contains(x) && !a2.contains(x) implies normal_at(
                                        modules@,
                                        x as int,
                                    ) && covers(
                                        modules@,
                                        w,
                                        node(modules@, x as int).spec_star_export_module_ids(),
                                    ) by {
                                        assert(w.contains(x) && !a.contains(x));
                                    }
                                }
                                assert(admissible(modules@, w, a2, mids));
                            }
                            // names
                            let d = v2.difference(a);
                            let d1 = vi.difference(a);
                            let d2 = v2.difference(a2);
                            assert(names_of_modules(modules@, d) =~= names_of_modules(modules@, d1)
                                + own_names(*m, false) + names_of_modules(modules@, d2)) by {
                                assert forall|nm: Seq<char>|
                                    names_of_modules(modules@, d).contains(nm) implies (
                                    names_of_modules(modules@, d1) + own_names(*m, false)
                                        + names_of_modules(modules@, d2)).contains(nm) by {
                                    let x = choose|x: ModuleIdx| #[trigger]
                                        d.contains(x) && own_names(
                                            node(modules@, x as int),
                                            false,
                                        ).contains(nm);
                                    if d1.contains(x) {
                                    } else if x == t {
                                    } else {
                                        assert(d2.contains(x));
                                    }
                                }
                                assert forall|nm: Seq<char>|
                                    (names_of_modules(modules@, d1) + own_names(*m, false)
                                        + names_of_modules(modules@, d2)).contains(
                                        nm,
                                    ) implies names_of_modules(modules@, d).contains(nm) by {
                                    if names_of_modules(modules@, d1).contains(nm) {
                                        let x = choose|x: ModuleIdx| #[trigger]
                                            d1.contains(x) && own_names(
                                                node(modules@, x as int),
                                                false,
                                            ).contains(nm);
                                        assert(d.contains(x));
                                    } else if own_names(*m, false).contains(nm) {
                                        assert(d.contains(t));
                                    } else {
                                        let x = choose|x: ModuleIdx| #[trigger]
                                            d2.contains(x) && own_names(
                                                node(modules@, x as int),
                                                false,
                                            ).contains(nm);
                                        assert(d.contains(x));
                                    }
                                }
                            }
                            assert(name_set(ret@) =~= name_set(ret0) + names_of_modules(
                                modules@,
                                d,
                            ));
                        }
                        assert(ret0.is_prefix_of(ret@));
                    }
                },
                Module::External(_) => {
                    proof {
                        let roots = ids@.take(i + 1);
                        assert(!normal_at(modules@, t as int));
                        assert(covers(modules@, export_star_set@, roots)) by {
                            assert forall|k: int|
                                0 <= k < roots.len() && normal_at(
                                    modules@,
                                    roots[k] as int,
                                ) implies export_star_set@.contains(#[trigger] roots[k]) by {
                                assert(ids@.take(i as int)[k] == roots[k]);
                            }
                        }
                        assert forall|w: Set<ModuleIdx>| #[trigger]
                            admissible(modules@, w, a, roots) implies export_star_set@.subset_of(
                            w,
                        ) by {
                            assert(covers(modules@, w, ids@.take(i as int))) by {
                                assert forall|k: int|
                                    0 <= k < ids@.take(i as int).len() && normal_at(
                                        modules@,
                                        ids@.take(i as int)[k] as int,
                                    ) implies w.contains(#[trigger] ids@.take(i as int)[k]) by {
                                    assert(roots[k] == ids@.take(i as int)[k]);
                                }
                            }
                            assert(admissible(modules@, w, a, ids@.take(i as int)));
                        }
                    }
                },
            }
            i = i + 1;
        }
        assert(ids@.take(ids.len() as int) =~= ids@);
        let ghost retn = ret@;
        let names = &self.ecma_view.named_exports;
        let mut j: usize = 0;
        while j < names.len()
            invariant
                names@ == self.ecma_view.named_exports@,
                j <= names.len(),
                name_set(ret@) == name_set(retn) + Set::new(
                    |nm: Seq<char>|
                        exists|k: int|
                            0 <= k < j && #[trigger] names@[k]@ == nm && (include_default || nm
                                != default_name()),
                ),
                ret0.is_prefix_of(retn),
                retn.is_prefix_of(ret@),
                views(ret0).no_duplicates() ==> views(retn).no_duplicates(),
                views(retn).no_duplicates() ==> views(ret@).no_duplicates(),
            decreases names.len() - j,
        {
            let ghost before = ret@;
            proof {
                reveal_strlit("default");
            }
            let is_default = str_eq(names[j].as_str(), "default");
            assert("default"@ =~= default_name());
            if include_default || !is_default {
                insert_name(ret, names[j].clone());
            }
            proof {
                let pj = |nm: Seq<char>|
                    exists|k: int|
                        0 <= k < j && #[trigger] names@[k]@ == nm && (include_default || nm
                            != default_name());
                let pj1 = |nm: Seq<char>|
                    exists|k: int|
                        0 <= k < j + 1 && #[trigger] names@[k]@ == nm && (include_default || nm
                            != default_name());
                if include_default || !is_default {
                    assert(Set::new(pj1) =~= Set::new(pj).insert(names@[j as int]@)) by {
                        assert forall|nm: Seq<char>| pj1(nm) implies #[trigger] Set::new(pj).insert(
                            names@[j as int]@,
                        ).contains(nm) by {
                            let k = choose|k: int|
                                0 <= k < j + 1 && #[trigger] names@[k]@ == nm && (include_default
                                    || nm != default_name());
                            if k < j {
                                assert(pj(nm));
                            }
                        }
                    }
                } else {
                    assert(Set::new(pj1) =~= Set::new(pj)) by {
                        assert forall|nm: Seq<char>| pj1(nm) implies #[trigger] Set::new(
                            pj,
                        ).contains(nm) by {
                            let k = choose|k: int|
                                0 <= k < j + 1 && #[trigger] names@[k]@ == nm && (include_default
                                    || nm != default_name());
                            if k < j {
                                assert(pj(nm));
                            }
                        }
                    }
                }
                assert(retn.is_prefix_of(ret@)) by {
                    assert(before.is_prefix_of(ret@));
                }
            }
            j = j + 1;
        }
        proof {
            let own = own_names(*self, include_default);
            let got = Set::new(
                |nm: Seq<char>|
                    exists|k: int|
                        0 <= k < names.len() && #[trigger] names@[k]@ == nm && (include_default
                            || nm != default_name()),
            );
            assert(got =~= own) by {
                assert forall|nm: Seq<char>| got.contains(nm) implies own.contains(nm) by {
                    let k = choose|k: int|
                        0 <= k < names.len() && #[trigger] names@[k]@ == nm && (include_default
                            || nm != default_name());
                    assert(views(names@)[k] == nm);
                }
                assert forall|nm: Seq<char>| own.contains(nm) implies got.contains(nm) by {
                    let k = choose|k: int|
                        0 <= k < views(names@).len() && views(names@)[k] == nm;
                    assert(names@[k]@ == nm);
                }
            }
            assert(name_set(ret@) =~= name_set(ret0) + own + names_of_modules(
                modules@,
                export_star_set@.difference(a),
            ));
            lemma_prefix_transitive(ret0, retn, ret@);
        }
    }
}

/// The names a module itself contributes are its export names, leaving
/// out exactly the name `default` unless it is asked for.
pub proof fn lemma_own_names(m: NormalModule, include_default: bool, n: Seq<char>)
    ensures
        own_names(m, include_default).contains(n) <==> (views(m.ecma_view.named_exports@).contains(n)
            && (include_default || n != seq!['d', 'e', 'f', 'a', 'u', 'l', 't'])),
{
}

} // verus!
