//! Dependency resolver: orders templates so that every template appears
//! after every dependency of it that is present in the set, and detects
//! dependency cycles.  Implemented as a depth-first traversal with
//! three-state marking (unvisited / in-progress / finished).

use crate::strutil::str_eq;
use crate::types::TemplateManifest;
use vstd::prelude::*;

verus! {

/// The name of the template at index `i`.
pub open spec fn tmpl_name(ts: Seq<TemplateManifest>, i: int) -> Seq<char> {
    ts[i].template.name@
}

/// Whether some template in `ts` is named `n`.
pub open spec fn has_name(ts: Seq<TemplateManifest>, n: Seq<char>) -> bool {
    exists|i: int| 0 <= i < ts.len() && tmpl_name(ts, i) == n
}

/// Template names are pairwise distinct.
pub open spec fn unique_names(ts: Seq<TemplateManifest>) -> bool {
    forall|i: int, j: int| 0 <= i < j < ts.len() ==> tmpl_name(ts, i) != tmpl_name(ts, j)
}

/// Template `i` names template `j` (both present in the set) as required.
pub open spec fn dep_edge(ts: Seq<TemplateManifest>, i: int, j: int) -> bool {
    &&& 0 <= i < ts.len()
    &&& 0 <= j < ts.len()
    &&& exists|k: int|
        0 <= k < ts[i].dependencies.requires_templates@.len()
            && ts[i].dependencies.requires_templates@[k]@ == tmpl_name(ts, j)
}

/// `a` appears strictly before `b` in `order`.
pub open spec fn ordered_before(order: Seq<Seq<char>>, a: Seq<char>, b: Seq<char>) -> bool {
    exists|p: int, q: int| 0 <= p < q < order.len() && order[p] == a && order[q] == b
}

/// `order` lists each template's name exactly once.
pub open spec fn covers(ts: Seq<TemplateManifest>, order: Seq<Seq<char>>) -> bool {
    &&& order.len() == ts.len()
    &&& forall|i: int| 0 <= i < ts.len() ==> order.contains(tmpl_name(ts, i))
    &&& forall|p: int, q: int| 0 <= p < q < order.len() ==> order[p] != order[q]
}

/// Every template comes after each template it requires.  A template that
/// requires itself can never be placed, so no order respects a self-loop.
pub open spec fn respects_deps(ts: Seq<TemplateManifest>, order: Seq<Seq<char>>) -> bool {
    forall|i: int, j: int|
        dep_edge(ts, i, j) ==> ordered_before(order, tmpl_name(ts, j), tmpl_name(ts, i))
}

/// A dependency-respecting order that covers the set.
pub open spec fn valid_order(ts: Seq<TemplateManifest>, order: Seq<Seq<char>>) -> bool {
    covers(ts, order) && respects_deps(ts, order)
}

/// The views of a list of owned strings.
pub open spec fn names_view(order: Seq<String>) -> Seq<Seq<char>> {
    order.map_values(|s: String| s@)
}

/// A dependency cycle: a nonempty index sequence where each template
/// requires the next, and the last requires the first.
pub open spec fn spec_cycle(ts: Seq<TemplateManifest>, c: Seq<int>) -> bool {
    &&& c.len() >= 1
    &&& forall|q: int| 0 <= q < c.len() ==> 0 <= #[trigger] c[q] < ts.len()
    &&& forall|q: int| 0 <= q < c.len() - 1 ==> dep_edge(ts, #[trigger] c[q], c[q + 1])
    &&& dep_edge(ts, c[c.len() - 1], c[0])
}

/// The position of name `n` in `order`.
pub open spec fn pos_of(order: Seq<Seq<char>>, n: Seq<char>) -> int {
    choose|p: int| 0 <= p < order.len() && order[p] == n
}

proof fn lemma_pos_of(order: Seq<Seq<char>>, n: Seq<char>)
    requires
        order.contains(n),
        forall|p: int, q: int| 0 <= p < q < order.len() ==> order[p] != order[q],
    ensures
        0 <= pos_of(order, n) < order.len(),
        order[pos_of(order, n)] == n,
        forall|p: int| 0 <= p < order.len() && order[p] == n ==> p == pos_of(order, n),
{
    let w = choose|p: int| 0 <= p < order.len() && order[p] == n;
    assert(order[w] == n);
    assert forall|p: int| 0 <= p < order.len() && order[p] == n implies p == pos_of(order, n) by {
        let v = pos_of(order, n);
        if p < v {
            assert(order[p] != order[v]);
        } else if v < p {
            assert(order[v] != order[p]);
        }
    };
}

/// In a valid order, a required template sits strictly before the one
/// requiring it.
proof fn lemma_edge_pos(ts: Seq<TemplateManifest>, order: Seq<Seq<char>>, i: int, j: int)
    requires
        valid_order(ts, order),
        dep_edge(ts, i, j),
    ensures
        pos_of(order, tmpl_name(ts, j)) < pos_of(order, tmpl_name(ts, i)),
{
    let ni = tmpl_name(ts, i);
    let nj = tmpl_name(ts, j);
    assert(ordered_before(order, nj, ni));
    let (p, q) = choose|p: int, q: int|
        0 <= p < q < order.len() && order[p] == nj && order[q] == ni;
    lemma_pos_of(order, nj);
    lemma_pos_of(order, ni);
    assert(p == pos_of(order, nj));
    assert(q == pos_of(order, ni));
}

proof fn lemma_cycle_chain(
    ts: Seq<TemplateManifest>,
    order: Seq<Seq<char>>,
    c: Seq<int>,
    m: int,
)
    requires
        valid_order(ts, order),
        spec_cycle(ts, c),
        0 <= m < c.len(),
    ensures
        pos_of(order, tmpl_name(ts, c[m])) <= pos_of(order, tmpl_name(ts, c[0])) - m,
    decreases m,
{
    if m > 0 {
        lemma_cycle_chain(ts, order, c, m - 1);
        lemma_edge_pos(ts, order, c[m - 1], c[m]);
    }
}

/// No order can both cover a set and respect a dependency cycle in it:
/// a cycle defeats every candidate ordering.
pub proof fn lemma_cycle_defeats_order(
    ts: Seq<TemplateManifest>,
    c: Seq<int>,
    order: Seq<Seq<char>>,
)
    requires
        spec_cycle(ts, c),
        unique_names(ts),
    ensures
        !valid_order(ts, order),
{
    if valid_order(ts, order) {
        let last = c.len() - 1;
        lemma_cycle_chain(ts, order, c, last);
        lemma_edge_pos(ts, order, c[last], c[0]);
        assert(false);
    }
}

/// In a covering order, every listed name is some template's name: the
/// template names fill the whole of the equally long, duplicate-free order.
pub proof fn lemma_covers_names(ts: Seq<TemplateManifest>, order: Seq<Seq<char>>, p: int)
    requires
        unique_names(ts),
        covers(ts, order),
        0 <= p < order.len(),
    ensures
        has_name(ts, order[p]),
{
    broadcast use vstd::seq_lib::seq_to_set_is_finite;
    broadcast use vstd::set::group_set_axioms;

    let tn = ts.map_values(|t: TemplateManifest| t.template.name@);
    assert(tn.no_duplicates()) by {
        assert(forall|i: int| 0 <= i < ts.len() ==> tn[i] == tmpl_name(ts, i));
        assert forall|i: int, j: int|
            0 <= i < tn.len() && 0 <= j < tn.len() && i != j implies tn[i] != tn[j] by {
            if i < j {
                assert(tmpl_name(ts, i) != tmpl_name(ts, j));
            } else {
                assert(tmpl_name(ts, j) != tmpl_name(ts, i));
            }
        };
    }
    tn.unique_seq_to_set();
    assert(order.no_duplicates()) by {
        assert forall|i: int, j: int|
            0 <= i < order.len() && 0 <= j < order.len() && i != j implies order[i] != order[j] by {
            if i < j {
                assert(order[i] != order[j]);
            } else {
                assert(order[j] != order[i]);
            }
        };
    }
    order.unique_seq_to_set();
    assert forall|x: Seq<char>| #[trigger] tn.to_set().contains(x) implies order.to_set().contains(
        x,
    ) by {
        let i = choose|i: int| 0 <= i < tn.len() && tn[i] == x;
        assert(tmpl_name(ts, i) == x);
        assert(order.contains(x));
    };
    assert(tn.to_set().subset_of(order.to_set()));
    if !has_name(ts, order[p]) {
        assert(!tn.to_set().contains(order[p])) by {
            if tn.to_set().contains(order[p]) {
                let i = choose|i: int| 0 <= i < tn.len() && tn[i] == order[p];
                assert(tmpl_name(ts, i) == order[p]);
            }
        }
        assert(order.to_set().contains(order[p]));
        tn.to_set().lemma_subset_not_in_lt(order.to_set(), order[p]);
        assert(false);
    }
}

/// Failure of dependency resolution: a cycle was found at this template.
#[derive(Debug)]
pub struct ResolveError {
    pub name: String,
}

/// The message text for a detected cycle.
pub open spec fn spec_cycle_msg(name: Seq<char>) -> Seq<char> {
    "circular dependency detected involving '"@ + name + "'"@
}

impl ResolveError {
    /// Render the error as text.
    pub fn message(&self) -> (r: String)
        ensures
            r@ == spec_cycle_msg(self.name@),
    {
        let mut s = String::new();
        s.append("circular dependency detected involving '");
        s.append(self.name.as_str());
        s.append("'");
        proof {
            assert(s@ =~= spec_cycle_msg(self.name@));
        }
        s
    }
}

/// The index of the template named `name`, if the name is present.
pub fn find_by_name(templates: &Vec<TemplateManifest>, name: &str) -> (r: Option<usize>)
    ensures
        match r {
            Some(j) => 0 <= j < templates@.len() && tmpl_name(templates@, j as int) == name@,
            None => !has_name(templates@, name@),
        },
{
    let n = templates.len();
    let mut i: usize = 0;
    while i < n
        invariant
            n == templates@.len(),
            i <= n,
            forall|j: int| 0 <= j < i ==> tmpl_name(templates@, j) != name@,
        decreases n - i,
    {
        if str_eq(templates[i].template.name.as_str(), name) {
            return Some(i);
        }
        i = i + 1;
    }
    None
}

/// Adjacency lists are sound (every listed index is a dependency edge) and
/// complete (every dependency edge is listed).
pub open spec fn reqs_wf(ts: Seq<TemplateManifest>, reqs: Seq<Vec<usize>>) -> bool {
    &&& reqs.len() == ts.len()
    &&& forall|i: int, m: int|
        0 <= i < ts.len() && 0 <= m < reqs[i]@.len() ==> dep_edge(ts, i, reqs[i]@[m] as int)
    &&& forall|i: int, j: int| dep_edge(ts, i, j) ==> reqs[i]@.contains(j as usize)
}

/// Build the adjacency lists: for each template, the indices of the present
/// templates it requires (absent names are ignored, not errors).
fn build_reqs(templates: &Vec<TemplateManifest>) -> (reqs: Vec<Vec<usize>>)
    requires
        unique_names(templates@),
    ensures
        reqs_wf(templates@, reqs@),
{
    let n = templates.len();
    let mut reqs: Vec<Vec<usize>> = Vec::new();
    let mut i: usize = 0;
    while i < n
        invariant
            n == templates@.len(),
            unique_names(templates@),
            i <= n,
            reqs@.len() == i,
            forall|p: int, m: int|
                0 <= p < i && 0 <= m < reqs@[p]@.len() ==> dep_edge(templates@, p, reqs@[p]@[m] as int),
            forall|p: int, j: int| 0 <= p < i && dep_edge(templates@, p, j) ==> reqs@[p]@.contains(
                j as usize,
            ),
        decreases n - i,
    {
        let mut row: Vec<usize> = Vec::new();
        let reqs_list = &templates[i].dependencies.requires_templates;
        let m = reqs_list.len();
        let mut k: usize = 0;
        while k < m
            invariant
                n == templates@.len(),
                unique_names(templates@),
                i < n,
                m == templates@[i as int].dependencies.requires_templates@.len(),
                reqs_list@ == templates@[i as int].dependencies.requires_templates@,
                k <= m,
                forall|q: int| 0 <= q < row@.len() ==> dep_edge(templates@, i as int, row@[q] as int),
                forall|j: int, kk: int|
                    0 <= kk < k && 0 <= j < n && templates@[i as int].dependencies.requires_templates@[kk]@
                        == tmpl_name(templates@, j) ==> row@.contains(j as usize),
            decreases m - k,
        {
            match find_by_name(templates, reqs_list[k].as_str()) {
                Some(j) => {
                    let ghost prev_row = row@;
                    row.push(j);
                    proof {
                        assert(forall|x: usize| prev_row.contains(x) ==> row@.contains(x)) by {
                            assert forall|x: usize|
                                prev_row.contains(x) implies row@.contains(x) by {
                                let q = choose|q: int|
                                    0 <= q < prev_row.len() && prev_row[q] == x;
                                assert(row@[q] == x);
                            };
                        }
                        assert(dep_edge(templates@, i as int, j as int)) by {
                            assert(templates@[i as int].dependencies.requires_templates@[k as int]@
                                == tmpl_name(templates@, j as int));
                        }
                        assert(row@.last() == j);
                        assert(row@.contains(j));
                        assert(forall|jj: int, kk: int|
                            0 <= kk < k + 1 && 0 <= jj < n && templates@[i as int].dependencies.requires_templates@[kk]@
                                == tmpl_name(templates@, jj) ==> row@.contains(jj as usize)) by {
                            assert forall|jj: int, kk: int|
                                0 <= kk < k + 1 && 0 <= jj < n
                                    && templates@[i as int].dependencies.requires_templates@[kk]@
                                    == tmpl_name(templates@, jj) implies row@.contains(
                                jj as usize,
                            ) by {
                                if kk == k as int {
                                    assert(tmpl_name(templates@, jj) == tmpl_name(
                                        templates@,
                                        j as int,
                                    ));
                                    assert(jj == j as int) by {
                                        assert(unique_names(templates@));
                                    }
                                    assert((jj as usize) == j);
                                } else {
                                    assert(prev_row.contains(jj as usize));
                                }
                            };
                        }
                    }
                },
                None => {
                },
            }
            k = k + 1;
        }
        reqs.push(row);
        proof {
            let ii = i as int;
            assert(forall|j: int| dep_edge(templates@, ii, j) ==> reqs@[ii]@.contains(
                j as usize,
            )) by {
                assert forall|j: int| dep_edge(templates@, ii, j) implies reqs@[ii]@.contains(
                    j as usize,
                ) by {
                    let kk = choose|kk: int|
                        0 <= kk < templates@[ii].dependencies.requires_templates@.len()
                            && templates@[ii].dependencies.requires_templates@[kk]@ == tmpl_name(
                            templates@,
                            j,
                        );
                    assert(reqs@[ii]@ == row@);
                };
            }
        }
        i = i + 1;
    }
    reqs
}

/// Colors of the three-state marking.
#[allow(dead_code)]
pub open spec fn color_wf(color: Seq<u8>) -> bool {
    forall|i: int| 0 <= i < color.len() ==> color[i] == 0 || color[i] == 1 || color[i] == 2
}

/// How many templates are currently marked in-progress.
pub open spec fn count_gray(color: Seq<u8>) -> nat
    decreases color.len(),
{
    if color.len() == 0 {
        0
    } else {
        count_gray(color.drop_last()) + if color.last() == 1 {
            1nat
        } else {
            0nat
        }
    }
}

proof fn lemma_count_gray_le(color: Seq<u8>)
    ensures
        count_gray(color) <= color.len(),
    decreases color.len(),
{
    if color.len() > 0 {
        lemma_count_gray_le(color.drop_last());
    }
}

proof fn lemma_count_gray_congruent(a: Seq<u8>, b: Seq<u8>)
    requires
        a.len() == b.len(),
        forall|j: int| 0 <= j < a.len() ==> (a[j] == 1 <==> b[j] == 1),
    ensures
        count_gray(a) == count_gray(b),
    decreases a.len(),
{
    if a.len() > 0 {
        lemma_count_gray_congruent(a.drop_last(), b.drop_last());
        assert(a[a.len() - 1] == 1 <==> b[b.len() - 1] == 1);
    }
}

proof fn lemma_count_gray_update(color: Seq<u8>, i: int, v: u8)
    requires
        0 <= i < color.len(),
    ensures
        count_gray(color.update(i, v)) == count_gray(color) + (if v == 1 {
            1int
        } else {
            0int
        }) - (if color[i] == 1 {
            1int
        } else {
            0int
        }),
    decreases color.len(),
{
    let updated = color.update(i, v);
    if i == color.len() - 1 {
        assert(updated.drop_last() =~= color.drop_last());
        assert(updated.last() == v);
    } else {
        lemma_count_gray_update(color.drop_last(), i, v);
        assert(updated.drop_last() =~= color.drop_last().update(i, v));
        assert(updated.last() == color.last());
    }
}

/// `x` occurs in `order` strictly before position `bound`.
pub open spec fn appears_before(order: Seq<usize>, bound: int, x: usize) -> bool {
    exists|q: int| 0 <= q < bound && order[q] == x
}

/// The traversal's invariant: the order lists exactly the finished
/// templates, without repetition, and every dependency of a finished
/// template is finished earlier in the order.
pub open spec fn dfs_inv(
    ts: Seq<TemplateManifest>,
    reqs: Seq<Vec<usize>>,
    color: Seq<u8>,
    order: Seq<usize>,
) -> bool {
    &&& color.len() == ts.len()
    &&& forall|p: int, q: int| 0 <= p < q < order.len() ==> order[p] != order[q]
    &&& forall|p: int| 0 <= p < order.len() ==> (order[p] as int) < ts.len()
    &&& forall|j: int| 0 <= j < ts.len() ==> (color[j] == 2 <==> order.contains(j as usize))
    &&& forall|p: int, m: int|
        0 <= p < order.len() && 0 <= m < reqs[order[p] as int]@.len() ==> appears_before(
            order,
            p,
            #[trigger] reqs[order[p] as int]@[m],
        )
}

/// Visit one template: finish it after finishing all templates it requires,
/// or report a cycle when an in-progress template is reached again.
fn visit(
    templates: &Vec<TemplateManifest>,
    reqs: &Vec<Vec<usize>>,
    node: usize,
    color: &mut Vec<u8>,
    order: &mut Vec<usize>,
    Ghost(stack): Ghost<Seq<int>>,
) -> (r: Result<(), ResolveError>)
    requires
        unique_names(templates@),
        reqs_wf(templates@, reqs@),
        templates@.len() <= usize::MAX,
        (node as int) < templates@.len(),
        color_wf(old(color)@),
        dfs_inv(templates@, reqs@, old(color)@, old(order)@),
        old(color)@[node as int] != 1,
        // the in-progress templates form a chain of requirements ending in
        // one that requires this node
        forall|q: int| 0 <= q < stack.len() ==> 0 <= #[trigger] stack[q] < templates@.len(),
        forall|q: int| 0 <= q < stack.len() - 1 ==> dep_edge(
            templates@,
            #[trigger] stack[q],
            stack[q + 1],
        ),
        stack.len() > 0 ==> dep_edge(templates@, stack[stack.len() - 1], node as int),
        forall|j: int|
            0 <= j < old(color)@.len() ==> (old(color)@[j] == 1 <==> stack.contains(j)),
    ensures
        final(color)@.len() == old(color)@.len(),
        color_wf(final(color)@),
        match r {
            Ok(_) => {
                &&& dfs_inv(templates@, reqs@, final(color)@, final(order)@)
                &&& final(color)@[node as int] == 2
                &&& forall|j: int|
                    0 <= j < old(color)@.len() && old(color)@[j] == 2 ==> final(color)@[j] == 2
                &&& forall|j: int|
                    0 <= j < old(color)@.len() ==> (final(color)@[j] == 1 <==> old(color)@[j] == 1)
                &&& old(order)@.is_prefix_of(final(order)@)
            },
            Err(e) => has_name(templates@, e.name@) && (exists|c: Seq<int>|
                spec_cycle(templates@, c) && tmpl_name(templates@, c[0]) == e.name@),
        },
    decreases templates@.len() - count_gray(old(color)@),
{
    proof {
        lemma_count_gray_le(old(color)@);
    }
    if color[node] == 2 {
        return Ok(());
    }
    let ghost pre = color@;
    color[node] = 1;
    proof {
        lemma_count_gray_update(pre, node as int, 1);
        assert(dfs_inv(templates@, reqs@, color@, order@)) by {
            assert(pre[node as int] != 2);
            assert(forall|j: int|
                0 <= j < templates@.len() ==> (color@[j] == 2 <==> pre[j] == 2));
        }
    }
    let ghost entry_color = color@;
    let ghost entry_order = order@;
    let ghost full = stack.push(node as int);
    proof {
        assert(!stack.contains(node as int));
        assert(forall|q: int| 0 <= q < stack.len() ==> full[q] == stack[q]);
        assert(full[full.len() - 1] == node as int);
        assert(forall|j: int|
            0 <= j < color@.len() ==> (color@[j] == 1 <==> full.contains(j))) by {
            assert forall|j: int|
                0 <= j < color@.len() implies (color@[j] == 1 <==> full.contains(j)) by {
                if j == node as int {
                    assert(full.contains(j));
                } else {
                    if full.contains(j) {
                        let q = choose|q: int| 0 <= q < full.len() && full[q] == j;
                        assert(q < stack.len());
                        assert(stack[q] == j);
                        assert(stack.contains(j));
                    }
                    if stack.contains(j) {
                        let q = choose|q: int| 0 <= q < stack.len() && stack[q] == j;
                        assert(full[q] == j);
                        assert(full.contains(j));
                    }
                }
            };
        }
    }
    let deps = &reqs[node];
    let dn = deps.len();
    let mut m: usize = 0;
    while m < dn
        invariant
            unique_names(templates@),
            reqs_wf(templates@, reqs@),
            templates@.len() <= usize::MAX,
            (node as int) < templates@.len(),
            color@.len() == old(color)@.len(),
            dn == reqs@[node as int]@.len(),
            deps@ == reqs@[node as int]@,
            m <= dn,
            color@.len() == entry_color.len(),
            color_wf(color@),
            dfs_inv(templates@, reqs@, color@, order@),
            count_gray(color@) == count_gray(entry_color),
            forall|j: int| 0 <= j < color@.len() ==> (color@[j] == 1 <==> entry_color[j] == 1),
            forall|j: int| 0 <= j < color@.len() && entry_color[j] == 2 ==> color@[j] == 2,
            color@[node as int] == 1,
            entry_order.is_prefix_of(order@),
            entry_color == pre.update(node as int, 1),
            entry_order == old(order)@,
            count_gray(entry_color) == count_gray(pre) + (if pre[node as int] == 1 {
                0int
            } else {
                1int
            }),
            pre == old(color)@,
            pre[node as int] != 1,
            forall|q: int| 0 <= q < m ==> color@[deps@[q] as int] == 2,
            full == stack.push(node as int),
            forall|q: int| 0 <= q < full.len() ==> 0 <= #[trigger] full[q] < templates@.len(),
            forall|q: int| 0 <= q < full.len() - 1 ==> dep_edge(
                templates@,
                #[trigger] full[q],
                full[q + 1],
            ),
            full[full.len() - 1] == node as int,
            forall|j: int| 0 <= j < color@.len() ==> (color@[j] == 1 <==> full.contains(j)),
        decreases dn - m,
    {
        let d = deps[m];
        proof {
            assert(dep_edge(templates@, node as int, d as int));
        }
        if color[d] == 1 {
            proof {
                // the in-progress chain from the re-reached template down to
                // this node, closed by the edge back to it, is a cycle
                assert(full.contains(d as int));
                let k = choose|k: int| 0 <= k < full.len() && full[k] == d as int;
                let c = full.subrange(k, full.len() as int);
                assert(c[0] == d as int);
                assert(c[c.len() - 1] == node as int);
                assert(forall|q: int| 0 <= q < c.len() ==> c[q] == full[k + q]);
                assert(spec_cycle(templates@, c)) by {
                    assert forall|q: int| 0 <= q < c.len() - 1 implies dep_edge(
                        templates@,
                        #[trigger] c[q],
                        c[q + 1],
                    ) by {
                        assert(c[q] == full[k + q]);
                        assert(c[q + 1] == full[k + q + 1]);
                    };
                    assert(dep_edge(templates@, c[c.len() - 1], c[0]));
                }
                assert(tmpl_name(templates@, c[0]) == templates@[d as int].template.name@);
            }
            return Err(ResolveError { name: templates[d].template.name.clone() });
        }
        proof {
            lemma_count_gray_le(color@);
        }
        let ghost before_call = color@;
        let res = visit(templates, reqs, d, color, order, Ghost(full));
        match res {
            Ok(_) => {
                proof {
                    lemma_count_gray_congruent(color@, before_call);
                }
            },
            Err(e) => {
                return Err(e);
            },
        }
        m = m + 1;
    }
    let ghost before_finish = color@;
    let ghost prev_order = order@;
    color[node] = 2;
    order.push(node);
    proof {
        lemma_count_gray_update(before_finish, node as int, 2);
        let oc = order@;
        let cc = color@;
        assert(oc =~= prev_order.push(node));
        assert(oc.last() == node);
        assert(forall|p: int| 0 <= p < prev_order.len() ==> oc[p] == prev_order[p]);
        // distinctness: node was gray, so not finished, so not in the old order
        assert(!prev_order.contains(node)) by {
            assert(before_finish[node as int] == 1);
        }
        // the new node's dependencies are all finished in the old order
        assert(forall|mm: int|
            0 <= mm < reqs@[node as int]@.len() ==> before_finish[#[trigger] reqs@[node as int]@[mm] as int]
                == 2);
        assert(dfs_inv(templates@, reqs@, cc, oc)) by {
            assert(cc.len() == templates@.len());
            assert(forall|p: int, q: int| 0 <= p < q < oc.len() ==> oc[p] != oc[q]) by {
                assert forall|p: int, q: int| 0 <= p < q < oc.len() implies oc[p] != oc[q] by {
                    if q == oc.len() - 1 {
                        assert(oc[p] == prev_order[p]);
                        assert(prev_order.contains(oc[p]));
                    } else {
                        assert(oc[p] == prev_order[p]);
                        assert(oc[q] == prev_order[q]);
                    }
                };
            }
            assert(forall|p: int| 0 <= p < oc.len() ==> (oc[p] as int) < templates@.len());
            assert(forall|j: int|
                0 <= j < templates@.len() ==> (cc[j] == 2 <==> oc.contains(j as usize))) by {
                assert forall|j: int| 0 <= j < templates@.len() implies (cc[j] == 2 <==> oc.contains(
                    j as usize,
                )) by {
                    if j == node as int {
                        assert(oc[oc.len() - 1] == node);
                        assert(oc.contains(node));
                    } else {
                        assert((j as usize) as int == j);
                        assert(j as usize != node);
                        if oc.contains(j as usize) {
                            let p = choose|p: int| 0 <= p < oc.len() && oc[p] == j as usize;
                            assert(p < prev_order.len());
                            assert(prev_order[p] == j as usize);
                            assert(prev_order.contains(j as usize));
                        }
                        if cc[j] == 2 {
                            assert(before_finish[j] == 2);
                            let p = choose|p: int|
                                0 <= p < prev_order.len() && prev_order[p] == j as usize;
                            assert(oc[p] == j as usize);
                        }
                    }
                };
            }
            assert forall|p: int, mm: int|
                0 <= p < oc.len() && 0 <= mm < reqs@[oc[p] as int]@.len() implies appears_before(
                oc,
                p,
                #[trigger] reqs@[oc[p] as int]@[mm],
            ) by {
                if p < oc.len() - 1 {
                    assert(oc[p] == prev_order[p]);
                    assert(appears_before(oc, p, reqs@[oc[p] as int]@[mm])) by {
                        assert(appears_before(prev_order, p, reqs@[prev_order[p] as int]@[mm]));
                        let q = choose|q: int|
                            0 <= q < p && prev_order[q] == reqs@[prev_order[p] as int]@[mm];
                        assert(oc[q] == reqs@[oc[p] as int]@[mm]);
                    }
                } else {
                    // the freshly finished node: each dependency was finished
                    // during the loop, hence sits in the earlier order
                    let d = reqs@[node as int]@[mm];
                    assert(oc[p] == node);
                    assert(before_finish[d as int] == 2);
                    assert(prev_order.contains(d));
                    let q = choose|q: int| 0 <= q < prev_order.len() && prev_order[q] == d;
                    assert(oc[q] == d);
                }
            };
        }
        // leaving: the node goes from in-progress to finished, so the set of
        // in-progress templates returns to what it was on entry
        assert(forall|j: int| 0 <= j < cc.len() ==> (cc[j] == 1 <==> pre[j] == 1)) by {
            assert forall|j: int| 0 <= j < cc.len() implies (cc[j] == 1 <==> pre[j] == 1) by {
                if j != node as int {
                    assert(cc[j] == before_finish[j]);
                    assert(entry_color[j] == pre[j]);
                }
            };
        }
    }
    Ok(())
}

/// Compute an execution order over the template set: every template appears
/// exactly once, after each template it requires that is also present.
/// Dependencies naming templates outside the set are ignored.  A dependency
/// cycle is an error naming a template on the cycle.
pub fn resolve_order(templates: &Vec<TemplateManifest>) -> (r: Result<Vec<String>, ResolveError>)
    requires
        unique_names(templates@),
    ensures
        match r {
            Ok(order) => valid_order(templates@, names_view(order@)),
            Err(e) => {
                &&& has_name(templates@, e.name@)
                &&& exists|c: Seq<int>|
                    spec_cycle(templates@, c) && tmpl_name(templates@, c[0]) == e.name@
                &&& forall|o: Seq<Seq<char>>| !valid_order(templates@, o)
            },
        },
{
    let n = templates.len();
    let reqs = build_reqs(templates);
    let mut color: Vec<u8> = Vec::new();
    let mut i: usize = 0;
    while i < n
        invariant
            i <= n,
            color@.len() == i,
            forall|j: int| 0 <= j < i ==> color@[j] == 0,
        decreases n - i,
    {
        color.push(0);
        i = i + 1;
    }
    let mut order: Vec<usize> = Vec::new();
    proof {
        assert(count_gray(color@) == 0) by {
            lemma_count_all_white(color@);
        }
    }
    let mut v: usize = 0;
    while v < n
        invariant
            unique_names(templates@),
            reqs_wf(templates@, reqs@),
            n == templates@.len(),
            v <= n,
            color@.len() == n,
            color_wf(color@),
            dfs_inv(templates@, reqs@, color@, order@),
            forall|j: int| 0 <= j < color@.len() ==> color@[j] != 1,
            forall|j: int| 0 <= j < v ==> color@[j] == 2,
        decreases n - v,
    {
        if color[v] == 0 {
            match visit(templates, &reqs, v, &mut color, &mut order, Ghost(Seq::empty())) {
                Ok(_) => {},
                Err(e) => {
                    proof {
                        // a cycle defeats every candidate ordering
                        let c = choose|c: Seq<int>|
                            spec_cycle(templates@, c) && tmpl_name(templates@, c[0]) == e.name@;
                        assert forall|o: Seq<Seq<char>>| !valid_order(templates@, o) by {
                            lemma_cycle_defeats_order(templates@, c, o);
                        };
                    }
                    return Err(e);
                },
            }
        }
        v = v + 1;
    }
    // every template is finished: the order is a permutation of the indices
    let mut names: Vec<String> = Vec::new();
    let on = order.len();
    proof {
        assert(forall|j: int| 0 <= j < n ==> order@.contains(#[trigger] (j as usize))) by {
            assert forall|j: int| 0 <= j < n implies order@.contains(#[trigger] (j as usize)) by {
                assert(color@[j] == 2);
            };
        }
        assert(on == n) by {
            lemma_distinct_full_len(order@, n as nat);
        }
    }
    let mut p: usize = 0;
    while p < on
        invariant
            n == templates@.len(),
            on == order@.len(),
            dfs_inv(templates@, reqs@, color@, order@),
            forall|j: int| 0 <= j < n ==> color@[j] == 2,
            p <= on,
            names@.len() == p,
            forall|q: int| 0 <= q < p ==> names@[q]@ == tmpl_name(templates@, order@[q] as int),
        decreases on - p,
    {
        names.push(templates[order[p]].template.name.clone());
        p = p + 1;
    }
    proof {
        let ts = templates@;
        let ov = names_view(names@);
        assert(ov.len() == n);
        assert(forall|q: int| 0 <= q < n ==> ov[q] == tmpl_name(ts, order@[q] as int));
        // distinct names
        assert(forall|p0: int, q0: int| 0 <= p0 < q0 < n ==> ov[p0] != ov[q0]) by {
            assert forall|p0: int, q0: int| 0 <= p0 < q0 < n implies ov[p0] != ov[q0] by {
                assert(order@[p0] != order@[q0]);
                assert(unique_names(ts));
            };
        }
        // covers every template
        assert(forall|i0: int| 0 <= i0 < n ==> ov.contains(tmpl_name(ts, i0))) by {
            assert forall|i0: int| 0 <= i0 < n implies ov.contains(tmpl_name(ts, i0)) by {
                assert(color@[i0] == 2);
                assert(order@.contains(i0 as usize));
                let q = choose|q: int| 0 <= q < order@.len() && order@[q] == i0 as usize;
                assert(ov[q] == tmpl_name(ts, i0));
            };
        }
        // respects dependencies: every required present template was
        // finished earlier (a self-requirement would place a template
        // before itself, which the distinct order rules out)
        assert(respects_deps(ts, ov)) by {
            assert forall|i0: int, j0: int| dep_edge(ts, i0, j0) implies ordered_before(
                ov,
                tmpl_name(ts, j0),
                tmpl_name(ts, i0),
            ) by {
                assert(reqs@[i0]@.contains(j0 as usize));
                let mm = choose|mm: int| 0 <= mm < reqs@[i0]@.len() && reqs@[i0]@[mm] == j0 as usize;
                assert(order@.contains(i0 as usize));
                let p0 = choose|p0: int| 0 <= p0 < order@.len() && order@[p0] == i0 as usize;
                assert((order@[p0] as int) == i0);
                assert(appears_before(order@, p0, reqs@[order@[p0] as int]@[mm]));
                let q0 = choose|q0: int| 0 <= q0 < p0 && order@[q0] == reqs@[i0]@[mm];
                if i0 == j0 {
                    // order[q0] == order[p0] with q0 < p0 is impossible
                    assert(order@[q0] == order@[p0]);
                    assert(false);
                } else {
                    assert(ov[q0] == tmpl_name(ts, j0));
                    assert(ov[p0] == tmpl_name(ts, i0));
                }
            };
        }
    }
    Ok(names)
}

proof fn lemma_count_all_white(color: Seq<u8>)
    requires
        forall|j: int| 0 <= j < color.len() ==> color[j] != 1,
    ensures
        count_gray(color) == 0,
    decreases color.len(),
{
    if color.len() > 0 {
        lemma_count_all_white(color.drop_last());
    }
}

/// A duplicate-free sequence of indices below `n` that contains every such
/// index has length `n`.
proof fn lemma_distinct_full_len(order: Seq<usize>, n: nat)
    requires
        n <= usize::MAX,
        forall|p: int, q: int| 0 <= p < q < order.len() ==> order[p] != order[q],
        forall|p: int| 0 <= p < order.len() ==> (order[p] as nat) < n,
        forall|j: int| 0 <= j < n ==> order.contains(#[trigger] (j as usize)),
    ensures
        order.len() == n,
{
    assert(order.no_duplicates()) by {
        assert forall|i: int, j: int|
            0 <= i < order.len() && 0 <= j < order.len() && i != j implies order[i] != order[j] by {
            if i < j {
                assert(order[i] != order[j]);
            } else {
                assert(order[j] != order[i]);
            }
        };
    }
    let t = Set::new(|x: usize| (x as nat) < n);
    assert forall|x: usize| #[trigger] t.contains(x) implies order.contains(x) by {
        let j = x as int;
        assert(0 <= j < n);
        assert(order.contains(j as usize));
        assert((j as usize) == x);
    };
    assert forall|x: usize| #[trigger] order.contains(x) implies t.contains(x) by {
        let p = choose|p: int| 0 <= p < order.len() && order[p] == x;
        assert((order[p] as nat) < n);
    };
    assert(order.to_set() =~= t);
    order.unique_seq_to_set();
    lemma_usize_range_set_len(n);
}

proof fn lemma_usize_range_set_len(n: nat)
    requires
        n <= usize::MAX,
    ensures
        Set::new(|x: usize| (x as nat) < n).len() == n,
        Set::new(|x: usize| (x as nat) < n).finite(),
    decreases n,
{
    if n == 0 {
        assert(Set::new(|x: usize| (x as nat) < 0) =~= Set::<usize>::empty());
    } else {
        lemma_usize_range_set_len((n - 1) as nat);
        let prev = Set::new(|x: usize| (x as nat) < n - 1);
        let cur = Set::new(|x: usize| (x as nat) < n);
        assert(cur =~= prev.insert(((n - 1) as usize)));
        assert(!prev.contains((n - 1) as usize));
    }
}

} // verus!
