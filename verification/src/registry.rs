//! Template registry: the set of loaded template manifests, ordered by
//! name, with name and category lookup, merging, dependency-closure
//! expansion for a selection, and recipe resolution.

use crate::resolver::{find_by_name, has_name, tmpl_name, unique_names};
use crate::sorting::{contains_str, sort_templates_by_name, sort_strings, dedup_sorted_strings,
    sorted_by_name, sorted_strings};
use crate::strutil::str_eq;
use crate::types::TemplateManifest;
use vstd::prelude::*;

verus! {

/// What a manifest copy preserves: identity, dependencies, and steps.
pub open spec fn similar(a: TemplateManifest, b: TemplateManifest) -> bool {
    &&& a.template == b.template
    &&& a.dependencies.required_tools@ == b.dependencies.required_tools@
    &&& a.dependencies.requires_templates@ == b.dependencies.requires_templates@
    &&& a.steps@ == b.steps@
}

/// Some held template is `similar` to `t`.
pub open spec fn holds_similar(ts: Seq<TemplateManifest>, t: TemplateManifest) -> bool {
    exists|k: int| 0 <= k < ts.len() && similar(t, ts[k])
}

/// A set of loaded templates, held in name order.
pub struct Registry {
    templates: Vec<TemplateManifest>,
}

/// A failure to resolve a name against the registry.
#[derive(Debug)]
pub enum RegistryError {
    /// A recipe named a template the registry does not hold.
    TemplateMissing { name: String },
    /// A selected template requires a template nobody holds.
    DependencyMissing { template: String, dependency: String },
}

impl Registry {
    /// The held manifests, for specification purposes.
    pub closed spec fn spec_templates(&self) -> Seq<TemplateManifest> {
        self.templates@
    }

    /// Build a registry from loaded manifests, sorting them by name.
    pub fn from_templates(templates: Vec<TemplateManifest>) -> (r: Registry)
        ensures
            sorted_by_name(r.spec_templates()),
            r.spec_templates().to_multiset() == templates@.to_multiset(),
    {
        let mut templates = templates;
        sort_templates_by_name(&mut templates);
        Registry { templates }
    }

    /// All held templates, in name order.
    pub fn templates(&self) -> (r: &Vec<TemplateManifest>)
        ensures
            r@ == self.spec_templates(),
    {
        &self.templates
    }

    /// The first template of that name, if any is held.
    pub fn find<'a>(&'a self, name: &str) -> (r: Option<&'a TemplateManifest>)
        ensures
            match r {
                Some(t) => t.template.name@ == name@ && has_name(self.spec_templates(), name@)
                    && exists|i: int|
                    0 <= i < self.spec_templates().len() && self.spec_templates()[i] == *t,
                None => !has_name(self.spec_templates(), name@),
            },
    {
        match find_by_name(&self.templates, name) {
            Some(i) => Some(&self.templates[i]),
            None => None,
        }
    }

    /// Merge another registry into this one: a template whose name this
    /// registry already holds is dropped (the held entry wins), the rest
    /// are appended, and the whole is re-sorted by name.
    pub fn merge(&mut self, other: Registry)
        ensures
            sorted_by_name(final(self).spec_templates()),
            forall|n: Seq<char>|
                #![trigger has_name(final(self).spec_templates(), n)]
                has_name(final(self).spec_templates(), n) <==> (has_name(
                    old(self).spec_templates(),
                    n,
                ) || has_name(other.spec_templates(), n)),
            // every held entry survives the merge unchanged
            forall|i: int|
                0 <= i < old(self).spec_templates().len()
                    ==> final(self).spec_templates().contains(
                    #[trigger] old(self).spec_templates()[i],
                ),
            // nothing else appears: each entry is a held one or a copy of a
            // merged one
            forall|j: int|
                #![trigger final(self).spec_templates()[j]]
                0 <= j < final(self).spec_templates().len() ==> (exists|i: int|
                    0 <= i < old(self).spec_templates().len()
                        && final(self).spec_templates()[j] == old(self).spec_templates()[i])
                    || holds_similar(other.spec_templates(), final(self).spec_templates()[j]),
            unique_names(old(self).spec_templates()) ==> unique_names(
                final(self).spec_templates(),
            ),
    {
        let n = other.templates.len();
        let mut i: usize = 0;
        while i < n
            invariant
                n == other.templates@.len(),
                i <= n,
                forall|m: Seq<char>|
                    #![trigger has_name(self.templates@, m)]
                    has_name(self.templates@, m) <==> (has_name(old(self).templates@, m) || exists|
                        j: int,
                    |
                        0 <= j < i && tmpl_name(other.templates@, j) == m),
                self.templates@.len() >= old(self).templates@.len(),
                forall|p: int|
                    0 <= p < old(self).templates@.len() ==> self.templates@[p]
                        == old(self).templates@[p],
                forall|j: int|
                    old(self).templates@.len() <= j < self.templates@.len() ==> holds_similar(
                        other.templates@,
                        #[trigger] self.templates@[j],
                    ),
                unique_names(old(self).templates@) ==> unique_names(self.templates@),
            decreases n - i,
        {
            let ghost prev = self.templates@;
            let present = match find_by_name(&self.templates, other.templates[i].template.name.as_str()) {
                Some(_) => true,
                None => false,
            };
            if !present {
                let dup = other.templates[i].duplicate();
                proof {
                    if unique_names(old(self).templates@) {
                        lemma_push_unique(self.templates@, dup);
                    }
                }
                self.templates.push(dup);
            }
            proof {
                let cur = self.templates@;
                if !present {
                    assert(cur.last().template.name@ == tmpl_name(other.templates@, i as int));
                    assert(forall|p: int| 0 <= p < prev.len() ==> cur[p] == prev[p]);
                    assert(holds_similar(other.templates@, cur.last())) by {
                        assert(similar(cur.last(), other.templates@[i as int]));
                    }
                    assert forall|j: int|
                        old(self).templates@.len() <= j < cur.len() implies holds_similar(
                        other.templates@,
                        #[trigger] cur[j],
                    ) by {
                        if j < prev.len() {
                            assert(cur[j] == prev[j]);
                        }
                    };
                } else {
                    assert(has_name(prev, tmpl_name(other.templates@, i as int)));
                }
                assert forall|m: Seq<char>|
                    #![trigger has_name(self.templates@, m)]
                    has_name(self.templates@, m) <==> (has_name(old(self).templates@, m) || exists|
                        j: int,
                    | 0 <= j < i + 1 && tmpl_name(other.templates@, j) == m) by {
                    if has_name(cur, m) {
                        let p = choose|p: int| 0 <= p < cur.len() && tmpl_name(cur, p) == m;
                        if p < prev.len() {
                            assert(tmpl_name(prev, p) == m);
                            assert(has_name(prev, m));
                        } else {
                            assert(tmpl_name(other.templates@, i as int) == m);
                        }
                    }
                    if has_name(old(self).templates@, m) || (exists|j: int|
                        0 <= j < i + 1 && tmpl_name(other.templates@, j) == m) {
                        if has_name(old(self).templates@, m) {
                            assert(has_name(prev, m));
                        } else {
                            let j = choose|j: int|
                                0 <= j < i + 1 && tmpl_name(other.templates@, j) == m;
                            if j < i {
                                assert(has_name(prev, m));
                            } else {
                                if present {
                                    assert(has_name(prev, m));
                                } else {
                                    assert(tmpl_name(cur, cur.len() - 1) == m);
                                    assert(has_name(cur, m));
                                }
                            }
                        }
                        if has_name(prev, m) {
                            let p = choose|p: int| 0 <= p < prev.len() && tmpl_name(prev, p) == m;
                            assert(tmpl_name(cur, p) == m);
                            assert(has_name(cur, m));
                        }
                    }
                };
            }
            i = i + 1;
        }
        let ghost pre_sort = self.templates@;
        sort_templates_by_name(&mut self.templates);
        proof {
            broadcast use vstd::seq_lib::group_to_multiset_ensures;

            assert forall|i: int|
                0 <= i < old(self).templates@.len() implies self.templates@.contains(
                #[trigger] old(self).templates@[i],
            ) by {
                assert(pre_sort[i] == old(self).templates@[i]);
                assert(pre_sort.contains(old(self).templates@[i]));
                assert(pre_sort.to_multiset().contains(old(self).templates@[i]));
            };
            assert forall|j: int|
                #![trigger self.spec_templates()[j]]
                0 <= j < self.spec_templates().len() implies (exists|i: int|
                0 <= i < old(self).spec_templates().len() && self.spec_templates()[j]
                    == old(self).spec_templates()[i]) || holds_similar(
                other.spec_templates(),
                self.spec_templates()[j],
            ) by {
                assert(self.templates@.to_multiset().contains(self.templates@[j]));
                assert(pre_sort.contains(self.templates@[j]));
                let w = choose|w: int|
                    0 <= w < pre_sort.len() && pre_sort[w] == self.templates@[j];
                if w < old(self).templates@.len() {
                    assert(self.spec_templates()[j] == old(self).spec_templates()[w]);
                } else {
                    assert(holds_similar(other.templates@, pre_sort[w]));
                }
            };

            assert forall|m: Seq<char>|
                #![trigger has_name(self.templates@, m)]
                has_name(self.templates@, m) <==> has_name(pre_sort, m) by {
                if has_name(self.templates@, m) {
                    let p = choose|p: int|
                        0 <= p < self.templates@.len() && tmpl_name(self.templates@, p) == m;
                    assert(self.templates@.to_multiset().contains(self.templates@[p]));
                    assert(pre_sort.contains(self.templates@[p]));
                    let q = choose|q: int|
                        0 <= q < pre_sort.len() && pre_sort[q] == self.templates@[p];
                    assert(tmpl_name(pre_sort, q) == m);
                }
                if has_name(pre_sort, m) {
                    let p = choose|p: int| 0 <= p < pre_sort.len() && tmpl_name(pre_sort, p) == m;
                    assert(pre_sort.to_multiset().contains(pre_sort[p]));
                    assert(self.templates@.contains(pre_sort[p]));
                    let q = choose|q: int|
                        0 <= q < self.templates@.len() && self.templates@[q] == pre_sort[p];
                    assert(tmpl_name(self.templates@, q) == m);
                }
            };
        }
    }

    /// Resolve recipe names against the registry: each distinct name must
    /// be held; the result lists the named templates without duplicates.
    pub fn resolve_recipe_templates(&self, names: &Vec<String>) -> (r: Result<
        Vec<TemplateManifest>,
        RegistryError,
    >)
        ensures
            match r {
                Ok(v) => {
                    &&& unique_names(v@)
                    &&& forall|j: int|
                        0 <= j < v@.len() ==> holds_similar(
                            self.spec_templates(),
                            #[trigger] v@[j],
                        )
                    &&& forall|p: int|
                        0 <= p < names@.len() ==> has_name(v@, #[trigger] names@[p]@)
                },
                Err(e) => match e {
                    RegistryError::TemplateMissing { name } => !has_name(
                        self.spec_templates(),
                        name@,
                    ),
                    _ => false,
                },
            },
    {
        let mut out: Vec<TemplateManifest> = Vec::new();
        let n = names.len();
        let mut i: usize = 0;
        while i < n
            invariant
                n == names@.len(),
                i <= n,
                unique_names(out@),
                forall|j: int|
                    0 <= j < out@.len() ==> holds_similar(
                        self.spec_templates(),
                        #[trigger] out@[j],
                    ),
                forall|p: int| 0 <= p < i ==> has_name(out@, #[trigger] names@[p]@),
            decreases n - i,
        {
            let name = &names[i];
            let already = match find_by_name(&out, name.as_str()) {
                Some(_) => true,
                None => false,
            };
            if !already {
                match self.find(name.as_str()) {
                    Some(t) => {
                        let ghost prev = out@;
                        let dup = t.duplicate();
                        out.push(dup);
                        proof {
                            assert(forall|p: int| 0 <= p < prev.len() ==> out@[p] == prev[p]);
                            assert(tmpl_name(out@, out@.len() - 1) == name@);
                            assert(holds_similar(self.spec_templates(), out@[out@.len() - 1]))
                                by {
                                let k = choose|k: int|
                                    0 <= k < self.spec_templates().len() && self.spec_templates()[k]
                                        == *t;
                                assert(similar(out@[out@.len() - 1], self.spec_templates()[k]));
                            }
                            assert(unique_names(out@)) by {
                                assert forall|p: int, q: int|
                                    0 <= p < q < out@.len() implies tmpl_name(out@, p) != tmpl_name(
                                    out@,
                                    q,
                                ) by {
                                    if q == out@.len() - 1 {
                                        assert(out@[p] == prev[p]);
                                        assert(!has_name(prev, name@));
                                        assert(tmpl_name(prev, p) != name@);
                                    } else {
                                        assert(out@[p] == prev[p]);
                                        assert(out@[q] == prev[q]);
                                        assert(tmpl_name(prev, p) != tmpl_name(prev, q));
                                    }
                                };
                            }
                            assert forall|p: int| 0 <= p < i + 1 implies has_name(
                                out@,
                                #[trigger] names@[p]@,
                            ) by {
                                if p < i {
                                    let w = choose|w: int|
                                        0 <= w < prev.len() && tmpl_name(prev, w) == names@[p]@;
                                    assert(tmpl_name(out@, w) == names@[p]@);
                                } else {
                                    assert(tmpl_name(out@, out@.len() - 1) == names@[p]@);
                                }
                            };
                        }
                    },
                    None => {
                        return Err(RegistryError::TemplateMissing { name: name.clone() });
                    },
                }
            }
            i = i + 1;
        }
        Ok(out)
    }

    /// All templates of the given category, as copies, in held order.
    pub fn by_category(&self, category: &str) -> (r: Vec<TemplateManifest>)
        ensures
            forall|j: int|
                0 <= j < r@.len() ==> r@[j].template.category@ == category@ && exists|k: int|
                    0 <= k < self.spec_templates().len() && similar(
                        #[trigger] r@[j],
                        self.spec_templates()[k],
                    ),
            forall|k: int|
                0 <= k < self.spec_templates().len()
                    && (#[trigger] self.spec_templates()[k]).template.category@ == category@
                    ==> exists|j: int|
                    0 <= j < r@.len() && similar(r@[j], self.spec_templates()[k]),
    {
        let mut out: Vec<TemplateManifest> = Vec::new();
        let n = self.templates.len();
        let mut i: usize = 0;
        while i < n
            invariant
                n == self.templates@.len(),
                i <= n,
                forall|j: int|
                    0 <= j < out@.len() ==> out@[j].template.category@ == category@ && exists|
                        k: int,
                    |
                        0 <= k < n && similar(#[trigger] out@[j], self.templates@[k]),
                forall|k: int|
                    0 <= k < i && (#[trigger] self.templates@[k]).template.category@ == category@
                        ==> exists|j: int| 0 <= j < out@.len() && similar(
                        out@[j],
                        self.templates@[k],
                    ),
            decreases n - i,
        {
            if str_eq(self.templates[i].template.category.as_str(), category) {
                let ghost prev = out@;
                out.push(self.templates[i].duplicate());
                proof {
                    assert(forall|j: int| 0 <= j < prev.len() ==> out@[j] == prev[j]);
                    assert(similar(out@.last(), self.templates@[i as int]));
                }
            }
            i = i + 1;
        }
        out
    }

    /// The distinct categories of the held templates, sorted.
    pub fn categories(&self) -> (r: Vec<String>)
        ensures
            sorted_strings(r@),
            forall|p: int, q: int| 0 <= p < q < r@.len() ==> r@[p]@ != r@[q]@,
            forall|x: Seq<char>|
                #![trigger contains_str(r@, x)]
                contains_str(r@, x) <==> exists|i: int|
                    0 <= i < self.spec_templates().len()
                        && self.spec_templates()[i].template.category@ == x,
    {
        let mut cats: Vec<String> = Vec::new();
        let n = self.templates.len();
        let mut i: usize = 0;
        while i < n
            invariant
                n == self.templates@.len(),
                i <= n,
                cats@.len() == i,
                forall|p: int| 0 <= p < i ==> cats@[p]@ == self.templates@[p].template.category@,
            decreases n - i,
        {
            cats.push(self.templates[i].template.category.clone());
            i = i + 1;
        }
        let ghost raw = cats@;
        sort_strings(&mut cats);
        proof {
            broadcast use vstd::seq_lib::group_to_multiset_ensures;

            assert forall|x: Seq<char>| contains_str(cats@, x) <==> contains_str(raw, x) by {
                if contains_str(cats@, x) {
                    let p = choose|p: int| 0 <= p < cats@.len() && cats@[p]@ == x;
                    assert(cats@.to_multiset().contains(cats@[p]));
                    assert(raw.contains(cats@[p]));
                    let q = choose|q: int| 0 <= q < raw.len() && raw[q] == cats@[p];
                }
                if contains_str(raw, x) {
                    let p = choose|p: int| 0 <= p < raw.len() && raw[p]@ == x;
                    assert(raw.to_multiset().contains(raw[p]));
                    assert(cats@.contains(raw[p]));
                    let q = choose|q: int| 0 <= q < cats@.len() && cats@[q] == raw[p];
                }
            };
        }
        let out = dedup_sorted_strings(&cats);
        proof {
            assert forall|x: Seq<char>|
                #![trigger contains_str(out@, x)]
                contains_str(out@, x) <==> exists|i: int|
                    0 <= i < self.templates@.len() && self.templates@[i].template.category@
                        == x by {
                if contains_str(out@, x) {
                    assert(contains_str(raw, x));
                    let p = choose|p: int| 0 <= p < raw.len() && raw[p]@ == x;
                }
                if exists|i: int|
                    0 <= i < self.templates@.len() && self.templates@[i].template.category@ == x {
                    let i = choose|i: int|
                        0 <= i < self.templates@.len() && self.templates@[i].template.category@
                            == x;
                    assert(raw[i]@ == x);
                    assert(contains_str(raw, x));
                }
            };
        }
        out
    }
}

/// Appending a template with a fresh name keeps names unique.
proof fn lemma_push_unique(prev: Seq<TemplateManifest>, t: TemplateManifest)
    requires
        unique_names(prev),
        !has_name(prev, t.template.name@),
    ensures
        unique_names(prev.push(t)),
{
    let cur = prev.push(t);
    assert(forall|p: int| 0 <= p < prev.len() ==> cur[p] == prev[p]);
    assert(cur[prev.len() as int] == t);
    assert forall|p: int, q: int| 0 <= p < q < cur.len() implies tmpl_name(cur, p) != tmpl_name(
        cur,
        q,
    ) by {
        assert(cur[p] == prev[p]);
        assert(tmpl_name(cur, p) == tmpl_name(prev, p));
        if q == prev.len() {
            assert(tmpl_name(cur, q) == t.template.name@);
            if tmpl_name(prev, p) == t.template.name@ {
                assert(has_name(prev, t.template.name@));
            }
        } else {
            assert(cur[q] == prev[q]);
            assert(tmpl_name(cur, q) == tmpl_name(prev, q));
        }
    };
}

/// The names after appending are the old names plus the new one.
proof fn lemma_push_names(prev: Seq<TemplateManifest>, t: TemplateManifest)
    ensures
        forall|n: Seq<char>|
            #![trigger has_name(prev.push(t), n)]
            has_name(prev.push(t), n) <==> (has_name(prev, n) || n == t.template.name@),
{
    let cur = prev.push(t);
    assert(forall|p: int| 0 <= p < prev.len() ==> cur[p] == prev[p]);
    assert(cur[prev.len() as int] == t);
    assert forall|n: Seq<char>|
        #![trigger has_name(cur, n)]
        has_name(cur, n) <==> (has_name(prev, n) || n == t.template.name@) by {
        if has_name(cur, n) {
            let p = choose|p: int| 0 <= p < cur.len() && tmpl_name(cur, p) == n;
            if p < prev.len() {
                assert(cur[p] == prev[p]);
                assert(tmpl_name(prev, p) == n);
                assert(has_name(prev, n));
            } else {
                assert(tmpl_name(cur, p) == t.template.name@);
                assert(n == t.template.name@);
            }
        }
        if has_name(prev, n) {
            let p = choose|p: int| 0 <= p < prev.len() && tmpl_name(prev, p) == n;
            assert(tmpl_name(cur, p) == n);
        }
        if n == t.template.name@ {
            assert(tmpl_name(cur, cur.len() - 1) == n);
        }
    };
}

/// A duplicate-free set of templates whose names all come from `a` or `b`
/// cannot outnumber them together.
proof fn lemma_names_bound(ts: Seq<TemplateManifest>, a: Seq<TemplateManifest>, b: Seq<TemplateManifest>)
    requires
        unique_names(ts),
        forall|i: int|
            0 <= i < ts.len() ==> has_name(a, #[trigger] tmpl_name(ts, i)) || has_name(
                b,
                tmpl_name(ts, i),
            ),
    ensures
        ts.len() <= a.len() + b.len(),
{
    broadcast use vstd::seq_lib::seq_to_set_is_finite;
    broadcast use vstd::set::group_set_axioms;

    let tn = ts.map_values(|t: TemplateManifest| t.template.name@);
    let an = a.map_values(|t: TemplateManifest| t.template.name@);
    let bn = b.map_values(|t: TemplateManifest| t.template.name@);
    assert(tn.no_duplicates()) by {
        assert(forall|i: int| 0 <= i < ts.len() ==> tn[i] == tmpl_name(ts, i));
    }
    tn.unique_seq_to_set();
    assert forall|x: Seq<char>| #[trigger] tn.to_set().contains(x) implies an.to_set().union(
        bn.to_set(),
    ).contains(x) by {
        let i = choose|i: int| 0 <= i < tn.len() && tn[i] == x;
        assert(tmpl_name(ts, i) == x);
        if has_name(a, x) {
            let p = choose|p: int| 0 <= p < a.len() && tmpl_name(a, p) == x;
            assert(an[p] == x);
            assert(an.contains(x));
        } else {
            let p = choose|p: int| 0 <= p < b.len() && tmpl_name(b, p) == x;
            assert(bn[p] == x);
            assert(bn.contains(x));
        }
    };
    assert(tn.to_set().subset_of(an.to_set().union(bn.to_set())));
    vstd::set_lib::lemma_len_subset(tn.to_set(), an.to_set().union(bn.to_set()));
    vstd::set_lib::lemma_len_union(an.to_set(), bn.to_set());
    an.lemma_cardinality_of_set();
    bn.lemma_cardinality_of_set();
}

/// Expand a selection to its dependency closure over the registry: keep
/// the selected templates (first occurrence of each name) and append, in
/// discovery order, every template transitively required; a required name
/// nobody holds is an error.
pub fn expand_required_templates(selected: &Vec<TemplateManifest>, registry: &Registry) -> (r:
    Result<Vec<TemplateManifest>, RegistryError>)
    requires
        selected@.len() + registry.spec_templates().len() <= usize::MAX,
    ensures
        match r {
            Ok(v) => {
                &&& unique_names(v@)
                &&& forall|p: int|
                    0 <= p < selected@.len() ==> has_name(v@, #[trigger] tmpl_name(selected@, p))
                &&& forall|i: int, k: int|
                    0 <= i < v@.len() && 0 <= k < v@[i].dependencies.requires_templates@.len()
                        ==> has_name(v@, #[trigger] v@[i].dependencies.requires_templates@[k]@)
            },
            Err(e) => match e {
                RegistryError::DependencyMissing { template, dependency } => !has_name(
                    registry.spec_templates(),
                    dependency@,
                ),
                _ => false,
            },
        },
{
    let ghost regs = registry.spec_templates();
    let mut ordered: Vec<TemplateManifest> = Vec::new();
    let ns = selected.len();
    let bound = ns + registry.templates().len();
    // keep the selection, first occurrence of each name
    let mut i: usize = 0;
    while i < ns
        invariant
            ns == selected@.len(),
            regs == registry.spec_templates(),
            i <= ns,
            unique_names(ordered@),
            forall|j: int|
                0 <= j < ordered@.len() ==> has_name(selected@, #[trigger] tmpl_name(ordered@, j))
                    || has_name(regs, tmpl_name(ordered@, j)),
            forall|p: int| 0 <= p < i ==> has_name(ordered@, #[trigger] tmpl_name(selected@, p)),
        decreases ns - i,
    {
        let already = match find_by_name(&ordered, selected[i].template.name.as_str()) {
            Some(_) => true,
            None => false,
        };
        let ghost prev = ordered@;
        if !already {
            let dup = selected[i].duplicate();
            proof {
                lemma_push_unique(prev, dup);
                lemma_push_names(prev, dup);
            }
            ordered.push(dup);
            proof {
                assert(ordered@ =~= prev.push(dup));
                assert(dup.template.name@ == tmpl_name(selected@, i as int));
                assert forall|j: int|
                    0 <= j < ordered@.len() implies has_name(
                    selected@,
                    #[trigger] tmpl_name(ordered@, j),
                ) || has_name(regs, tmpl_name(ordered@, j)) by {
                    if j < prev.len() {
                        assert(ordered@[j] == prev[j]);
                        assert(tmpl_name(ordered@, j) == tmpl_name(prev, j));
                        assert(has_name(selected@, tmpl_name(prev, j)) || has_name(
                            regs,
                            tmpl_name(prev, j),
                        ));
                    } else {
                        assert(tmpl_name(ordered@, j) == tmpl_name(selected@, i as int));
                        assert(has_name(selected@, tmpl_name(selected@, i as int)));
                    }
                };
            }
        }
        i = i + 1;
    }
    // walk the list, appending any required template not yet present
    let mut idx: usize = 0;
    while idx < ordered.len()
        invariant
            regs == registry.spec_templates(),
            ns == selected@.len(),
            bound == ns + regs.len(),
            idx <= ordered@.len(),
            unique_names(ordered@),
            forall|j: int|
                0 <= j < ordered@.len() ==> has_name(selected@, #[trigger] tmpl_name(ordered@, j))
                    || has_name(regs, tmpl_name(ordered@, j)),
            forall|p: int| 0 <= p < ns ==> has_name(ordered@, #[trigger] tmpl_name(selected@, p)),
            forall|i2: int, k: int|
                0 <= i2 < idx && 0 <= k < ordered@[i2].dependencies.requires_templates@.len()
                    ==> has_name(
                    ordered@,
                    #[trigger] ordered@[i2].dependencies.requires_templates@[k]@,
                ),
        decreases bound - idx,
    {
        proof {
            lemma_names_bound(ordered@, selected@, regs);
        }
        let reqs = crate::types::clone_strings(&ordered[idx].dependencies.requires_templates);
        let m = reqs.len();
        let mut k: usize = 0;
        while k < m
            invariant
                regs == registry.spec_templates(),
                ns == selected@.len(),
                idx < ordered@.len(),
                m == reqs@.len(),
                reqs@ == ordered@[idx as int].dependencies.requires_templates@,
                k <= m,
                unique_names(ordered@),
                forall|j: int|
                    0 <= j < ordered@.len() ==> has_name(
                        selected@,
                        #[trigger] tmpl_name(ordered@, j),
                    ) || has_name(regs, tmpl_name(ordered@, j)),
                forall|p: int|
                    0 <= p < ns ==> has_name(ordered@, #[trigger] tmpl_name(selected@, p)),
                forall|i2: int, k2: int|
                    0 <= i2 < idx && 0 <= k2 < ordered@[i2].dependencies.requires_templates@.len()
                        ==> has_name(
                        ordered@,
                        #[trigger] ordered@[i2].dependencies.requires_templates@[k2]@,
                    ),
                forall|k2: int| 0 <= k2 < k ==> has_name(ordered@, #[trigger] reqs@[k2]@),
            decreases m - k,
        {
            let dep = &reqs[k];
            let here = match find_by_name(&ordered, dep.as_str()) {
                Some(_) => true,
                None => false,
            };
            let ghost prev = ordered@;
            if !here {
                match registry.find(dep.as_str()) {
                    Some(t) => {
                        let dup = t.duplicate();
                        proof {
                            lemma_push_unique(prev, dup);
                            lemma_push_names(prev, dup);
                        }
                        ordered.push(dup);
                        proof {
                            assert(ordered@ =~= prev.push(dup));
                            assert(dup.template.name@ == dep@);
                            assert(has_name(regs, dep@));
                            assert forall|j: int|
                                0 <= j < ordered@.len() implies has_name(
                                selected@,
                                #[trigger] tmpl_name(ordered@, j),
                            ) || has_name(regs, tmpl_name(ordered@, j)) by {
                                if j < prev.len() {
                                    assert(ordered@[j] == prev[j]);
                                    assert(tmpl_name(ordered@, j) == tmpl_name(prev, j));
                                    assert(has_name(selected@, tmpl_name(prev, j)) || has_name(
                                        regs,
                                        tmpl_name(prev, j),
                                    ));
                                } else {
                                    assert(tmpl_name(ordered@, j) == dep@);
                                }
                            };
                            assert forall|i2: int, k2: int|
                                0 <= i2 < idx && 0 <= k2 < ordered@[i2].dependencies.requires_templates@.len()
                                    implies has_name(
                                ordered@,
                                #[trigger] ordered@[i2].dependencies.requires_templates@[k2]@,
                            ) by {
                                assert(ordered@[i2] == prev[i2]);
                                assert(has_name(prev, prev[i2].dependencies.requires_templates@[k2]@));
                            };
                            assert forall|k2: int| 0 <= k2 < k + 1 implies has_name(
                                ordered@,
                                #[trigger] reqs@[k2]@,
                            ) by {
                                if k2 < k {
                                    assert(has_name(prev, reqs@[k2]@));
                                } else {
                                    assert(tmpl_name(ordered@, ordered@.len() - 1) == reqs@[k2]@);
                                }
                            };
                        }
                    },
                    None => {
                        return Err(
                            RegistryError::DependencyMissing {
                                template: ordered[idx].template.name.clone(),
                                dependency: dep.clone(),
                            },
                        );
                    },
                }
            }
            k = k + 1;
        }
        idx = idx + 1;
    }
    Ok(ordered)
}

} // verus!
