//! Verified insertion sorts: owned strings in lexicographic order, and
//! template manifests by name; plus deduplication of a sorted string list.

use crate::resolver::unique_names;
use crate::strutil::{
    lemma_str_le_antisym, lemma_str_le_total, lemma_str_le_trans, str_eq, str_le, str_le_exec,
};
use crate::types::{Dependencies, Provider, TemplateInfo, TemplateManifest};
use vstd::pervasive::VecAdditionalExecFns;
use vstd::prelude::*;

verus! {

/// The strings are in lexicographic order.
pub open spec fn sorted_strings(s: Seq<String>) -> bool {
    forall|p: int, q: int| 0 <= p < q < s.len() ==> str_le(s[p]@, s[q]@)
}

/// The manifests are ordered by template name.
pub open spec fn sorted_by_name(s: Seq<TemplateManifest>) -> bool {
    forall|p: int, q: int|
        0 <= p < q < s.len() ==> str_le(s[p].template.name@, s[q].template.name@)
}

/// Exchanging two positions preserves the multiset of elements.
proof fn lemma_swap_multiset<A>(s: Seq<A>, i: int, j: int)
    requires
        0 <= i < j < s.len(),
    ensures
        s.update(i, s[j]).update(j, s[i]).to_multiset() == s.to_multiset(),
{
    broadcast use vstd::seq_lib::to_multiset_update;
    broadcast use vstd::seq_lib::group_to_multiset_ensures;
    broadcast use vstd::multiset::group_multiset_axioms;

    let s1 = s.update(i, s[j]);
    assert(s1[j] == s[j]);
    let m = s.to_multiset();
    assert(s1.to_multiset() == m.insert(s[j]).remove(s[i]));
    assert(s1.update(j, s[i]).to_multiset() == s1.to_multiset().insert(s[i]).remove(s1[j]));
    assert(s.contains(s[i]));
    assert(m.count(s[i]) > 0);
    assert(m.insert(s[j]).remove(s[i]).insert(s[i]).remove(s[j]) =~= m) by {
        assert(forall|x: A| #[trigger] m.insert(s[j]).remove(s[i]).insert(s[i]).remove(
            s[j],
        ).count(x) == m.count(x));
    }
}

/// Sort owned strings lexicographically, preserving multiplicity.
pub fn sort_strings(v: &mut Vec<String>)
    ensures
        sorted_strings(final(v)@),
        final(v)@.to_multiset() == old(v)@.to_multiset(),
{
    let n = v.len();
    if n == 0 {
        return ;
    }
    let mut i: usize = 1;
    while i < n
        invariant
            n == v@.len(),
            1 <= i <= n,
            v@.to_multiset() == old(v)@.to_multiset(),
            forall|p: int, q: int| 0 <= p < q < i ==> str_le(v@[p]@, v@[q]@),
        decreases n - i,
    {
        let mut j: usize = i;
        while j > 0 && !str_le_exec(v[j - 1].as_str(), v[j].as_str())
            invariant
                n == v@.len(),
                i < n,
                j <= i,
                v@.to_multiset() == old(v)@.to_multiset(),
                forall|p: int, q: int| 0 <= p < q <= i && q != j ==> str_le(v@[p]@, v@[q]@),
                forall|p: int| j < p <= i ==> str_le(v@[j as int]@, v@[p]@),
            decreases j,
        {
            proof {
                lemma_str_le_total(v@[j - 1]@, v@[j as int]@);
            }
            let ghost before = v@;
            let x = v[j - 1].clone();
            let y = v[j].clone();
            v.set(j - 1, y);
            v.set(j, x);
            proof {
                assert(v@ =~= before.update(j - 1, before[j as int]).update(
                    j as int,
                    before[j - 1],
                ));
                lemma_swap_multiset(before, j - 1, j as int);
                assert forall|p: int, q: int|
                    0 <= p < q <= i && q != j - 1 implies str_le(v@[p]@, v@[q]@) by {
                    if q == j {
                        if p == j - 1 {
                            assert(str_le(before[j as int]@, before[j - 1]@));
                        } else {
                            assert(str_le(before[p]@, before[j - 1]@));
                        }
                    } else {
                        if p == j - 1 {
                            assert(str_le(before[j as int]@, before[q]@));
                        } else if p == j {
                            assert(str_le(before[j - 1]@, before[q]@));
                        } else {
                            assert(str_le(before[p]@, before[q]@));
                        }
                    }
                };
                assert forall|p: int| j - 1 < p <= i implies str_le(v@[j - 1]@, #[trigger] v@[p]@) by {
                    if p == j {
                        assert(str_le(before[j as int]@, before[j - 1]@));
                    } else {
                        assert(str_le(before[j as int]@, before[p]@));
                    }
                };
            }
            j = j - 1;
        }
        proof {
            if j > 0 {
                assert(str_le(v@[j - 1]@, v@[j as int]@));
            }
            assert forall|p: int, q: int| 0 <= p < q <= i implies str_le(v@[p]@, v@[q]@) by {
                if q == j && p < j - 1 {
                    assert(str_le(v@[p]@, v@[j - 1]@));
                    lemma_str_le_trans(v@[p]@, v@[j - 1]@, v@[j as int]@);
                }
            };
        }
        i = i + 1;
    }
}

/// A placeholder manifest used only while exchanging elements.
fn blank_manifest() -> TemplateManifest {
    TemplateManifest {
        template: TemplateInfo {
            name: String::new(),
            description: String::new(),
            category: String::new(),
            provider: Provider::Command,
        },
        dependencies: Dependencies::empty(),
        parameters: Vec::new(),
        steps: Vec::new(),
    }
}

/// Sort manifests by template name, preserving multiplicity; distinct
/// names stay distinct.
pub fn sort_templates_by_name(v: &mut Vec<TemplateManifest>)
    ensures
        sorted_by_name(final(v)@),
        final(v)@.to_multiset() == old(v)@.to_multiset(),
        unique_names(old(v)@) ==> unique_names(final(v)@),
{
    let n = v.len();
    if n == 0 {
        return ;
    }
    let mut i: usize = 1;
    while i < n
        invariant
            n == v@.len(),
            1 <= i <= n,
            v@.to_multiset() == old(v)@.to_multiset(),
            unique_names(old(v)@) ==> unique_names(v@),
            forall|p: int, q: int|
                0 <= p < q < i ==> str_le(v@[p].template.name@, v@[q].template.name@),
        decreases n - i,
    {
        let mut j: usize = i;
        while j > 0 && !str_le_exec(v[j - 1].template.name.as_str(), v[j].template.name.as_str())
            invariant
                n == v@.len(),
                i < n,
                j <= i,
                v@.to_multiset() == old(v)@.to_multiset(),
                unique_names(old(v)@) ==> unique_names(v@),
                forall|p: int, q: int|
                    0 <= p < q <= i && q != j ==> str_le(
                        v@[p].template.name@,
                        v@[q].template.name@,
                    ),
                forall|p: int|
                    j < p <= i ==> str_le(v@[j as int].template.name@, v@[p].template.name@),
            decreases j,
        {
            proof {
                lemma_str_le_total(v@[j - 1].template.name@, v@[j as int].template.name@);
            }
            let ghost before = v@;
            let mut tmp = blank_manifest();
            v.set_and_swap(j - 1, &mut tmp);
            v.set_and_swap(j, &mut tmp);
            v.set_and_swap(j - 1, &mut tmp);
            proof {
                assert(v@ =~= before.update(j - 1, before[j as int]).update(
                    j as int,
                    before[j - 1],
                ));
                lemma_swap_multiset(before, j - 1, j as int);
                if unique_names(old(v)@) {
                    assert(unique_names(v@)) by {
                        assert forall|p: int, q: int|
                            0 <= p < q < v@.len() implies v@[p].template.name@
                            != v@[q].template.name@ by {
                            let p0: int = if p == j - 1 {
                                j as int
                            } else if p == j {
                                j - 1
                            } else {
                                p
                            };
                            let q0: int = if q == j - 1 {
                                j as int
                            } else if q == j {
                                j - 1
                            } else {
                                q
                            };
                            assert(v@[p] == before[p0]);
                            assert(v@[q] == before[q0]);
                            if p0 < q0 {
                                assert(crate::resolver::tmpl_name(before, p0)
                                    != crate::resolver::tmpl_name(before, q0));
                            } else {
                                assert(crate::resolver::tmpl_name(before, q0)
                                    != crate::resolver::tmpl_name(before, p0));
                            }
                        };
                    }
                }
                assert forall|p: int, q: int|
                    0 <= p < q <= i && q != j - 1 implies str_le(
                    v@[p].template.name@,
                    v@[q].template.name@,
                ) by {
                    if q == j {
                        if p == j - 1 {
                            assert(str_le(before[j as int].template.name@,
                            before[j - 1].template.name@));
                        } else {
                            assert(str_le(before[p].template.name@,
                            before[j - 1].template.name@));
                        }
                    } else {
                        if p == j - 1 {
                            assert(str_le(before[j as int].template.name@,
                            before[q].template.name@));
                        } else if p == j {
                            assert(str_le(before[j - 1].template.name@,
                            before[q].template.name@));
                        } else {
                            assert(str_le(before[p].template.name@, before[q].template.name@));
                        }
                    }
                };
                assert forall|p: int| j - 1 < p <= i implies str_le(
                    v@[j - 1].template.name@,
                    (#[trigger] v@[p]).template.name@,
                ) by {
                    if p == j {
                        assert(str_le(before[j as int].template.name@,
                        before[j - 1].template.name@));
                    } else {
                        assert(str_le(before[j as int].template.name@,
                        before[p].template.name@));
                    }
                };
            }
            j = j - 1;
        }
        proof {
            if j > 0 {
                assert(str_le(v@[j - 1].template.name@, v@[j as int].template.name@));
            }
            assert forall|p: int, q: int| 0 <= p < q <= i implies str_le(
                v@[p].template.name@,
                v@[q].template.name@,
            ) by {
                if q == j && p < j - 1 {
                    assert(str_le(v@[p].template.name@, v@[j - 1].template.name@));
                    lemma_str_le_trans(
                        v@[p].template.name@,
                        v@[j - 1].template.name@,
                        v@[j as int].template.name@,
                    );
                }
            };
        }
        i = i + 1;
    }
}

/// Whether some string in `s` reads `x`.
pub open spec fn contains_str(s: Seq<String>, x: Seq<char>) -> bool {
    exists|i: int| 0 <= i < s.len() && s[i]@ == x
}

/// Collapse runs of equal strings in a sorted list: the result is sorted,
/// duplicate-free, and holds exactly the strings of the input.
pub fn dedup_sorted_strings(v: &Vec<String>) -> (r: Vec<String>)
    requires
        sorted_strings(v@),
    ensures
        sorted_strings(r@),
        forall|p: int, q: int| 0 <= p < q < r@.len() ==> r@[p]@ != r@[q]@,
        forall|x: Seq<char>| contains_str(v@, x) <==> contains_str(r@, x),
{
    let mut out: Vec<String> = Vec::new();
    let n = v.len();
    let mut i: usize = 0;
    while i < n
        invariant
            n == v@.len(),
            sorted_strings(v@),
            i <= n,
            sorted_strings(out@),
            forall|p: int, q: int| 0 <= p < q < out@.len() ==> out@[p]@ != out@[q]@,
            forall|x: Seq<char>| contains_str(out@, x) ==> contains_str(v@, x),
            forall|p: int| 0 <= p < i ==> contains_str(out@, v@[p]@),
            i > 0 ==> out@.len() > 0 && out@.last()@ == v@[i - 1]@,
            i == 0 ==> out@.len() == 0,
        decreases n - i,
    {
        let push_it = if out.len() == 0 {
            true
        } else {
            !str_eq(out[out.len() - 1].as_str(), v[i].as_str())
        };
        let ghost prev = out@;
        if push_it {
            out.push(v[i].clone());
            proof {
                assert(out@.last()@ == v@[i as int]@);
                assert(forall|p: int| 0 <= p < prev.len() ==> out@[p]@ == prev[p]@);
                if prev.len() > 0 {
                    // the last kept string came from earlier in the sorted
                    // input, so the new one is strictly greater
                    assert(i > 0 && prev.last()@ == v@[i - 1]@);
                    assert(str_le(v@[i - 1]@, v@[i as int]@));
                    assert forall|p: int, q: int|
                        0 <= p < q < out@.len() implies str_le(out@[p]@, out@[q]@) by {
                        if q == out@.len() - 1 {
                            if p < prev.len() - 1 {
                                assert(str_le(prev[p]@, prev.last()@));
                                lemma_str_le_trans(prev[p]@, prev.last()@, v@[i as int]@);
                            }
                        }
                    };
                    assert forall|p: int, q: int|
                        0 <= p < q < out@.len() implies out@[p]@ != out@[q]@ by {
                        if q == out@.len() - 1 {
                            if out@[p]@ == out@[q]@ {
                                assert(str_le(prev[p]@, prev.last()@));
                                lemma_str_le_antisym(prev.last()@, v@[i as int]@);
                            }
                        }
                    };
                }
                assert forall|p: int| 0 <= p < i + 1 implies contains_str(out@, v@[p]@) by {
                    if p < i {
                        let w = choose|w: int| 0 <= w < prev.len() && prev[w]@ == v@[p]@;
                        assert(out@[w]@ == v@[p]@);
                    } else {
                        assert(out@[out@.len() - 1]@ == v@[p]@);
                    }
                };
            }
        } else {
            proof {
                assert(out@.last()@ == v@[i as int]@);
                assert(contains_str(out@, v@[i as int]@)) by {
                    assert(out@[out@.len() - 1]@ == v@[i as int]@);
                }
            }
        }
        i = i + 1;
    }
    proof {
        assert forall|x: Seq<char>| contains_str(v@, x) implies contains_str(out@, x) by {
            let p = choose|p: int| 0 <= p < v@.len() && v@[p]@ == x;
            assert(contains_str(out@, v@[p]@));
        };
    }
    out
}

} // verus!
