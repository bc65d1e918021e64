//! Plugin registry and dependency resolution
//!
//! The registry records registered plugin names, checks API version
//! compatibility, resolves dependencies into an initialization order with
//! circular dependency detection, and tracks the initialized state.

use crate::plugins::api::PLUGIN_API_VERSION;
use vstd::prelude::*;
use vstd::string::StringExecFns;

verus! {

/// A dependency table as data: each entry is a plugin name and the names it
/// depends on.
pub open spec fn dependency_graph(deps: Seq<(String, Vec<String>)>) -> Seq<(Seq<char>, Seq<Seq<char>>)> {
    deps.map_values(|p: (String, Vec<String>)| (p.0@, p.1@.map_values(|d: String| d@)))
}

/// No two entries of the table carry the same name (as in a map keyed by name).
pub open spec fn distinct_names(g: Seq<(Seq<char>, Seq<Seq<char>>)>) -> bool {
    forall|a: int, b: int| 0 <= a < g.len() && 0 <= b < g.len() && a != b ==> g[a].0 != g[b].0
}

/// Entry `i`'s dependency at position `p` names entry `j`.
pub open spec fn dep_edge(g: Seq<(Seq<char>, Seq<Seq<char>>)>, i: int, p: int, j: int) -> bool {
    &&& 0 <= i < g.len()
    &&& 0 <= p < g[i].1.len()
    &&& 0 <= j < g.len()
    &&& g[i].1[p] == g[j].0
}

/// `s` lists every name of the table exactly once, and every dependency of
/// an entry is a name of the table listed before that entry's name.
pub open spec fn is_dependency_order(g: Seq<(Seq<char>, Seq<Seq<char>>)>, s: Seq<Seq<char>>) -> bool {
    &&& s.len() == g.len()
    &&& s.no_duplicates()
    &&& forall|i: int| 0 <= i < g.len() ==> s.contains(#[trigger] g[i].0)
    &&& forall|i: int, p: int|
        0 <= i < g.len() && 0 <= p < g[i].1.len() ==> {
            &&& s.contains(#[trigger] g[i].1[p])
            &&& s.index_of(g[i].1[p]) < s.index_of(g[i].0)
        }
}

/// Some order satisfies every dependency of the table: no dependency is
/// missing and there is no cycle.
pub open spec fn has_dependency_order(g: Seq<(Seq<char>, Seq<Seq<char>>)>) -> bool {
    exists|s: Seq<Seq<char>>| is_dependency_order(g, s)
}

/// The names of a list of strings.
pub open spec fn string_views(v: Seq<String>) -> Seq<Seq<char>> {
    v.map_values(|s: String| s@)
}

/// The adjacency lists as data.
pub open spec fn adj_view(adj: Seq<Vec<(usize, usize)>>) -> Seq<Seq<(usize, usize)>> {
    adj.map_values(|v: Vec<(usize, usize)>| v@)
}

/// Every recorded pair `(i, p)` in list `j` is an edge from `i`'s `p`-th
/// dependency to `j`, and no list holds a pair twice.
pub open spec fn adj_sound(g: Seq<(Seq<char>, Seq<Seq<char>>)>, adj: Seq<Seq<(usize, usize)>>) -> bool {
    &&& adj.len() == g.len()
    &&& forall|j: int, t: int|
        0 <= j < adj.len() && 0 <= t < adj[j].len() ==> dep_edge(
            g,
            (#[trigger] adj[j][t]).0 as int,
            adj[j][t].1 as int,
            j,
        )
    &&& forall|j: int| 0 <= j < adj.len() ==> (#[trigger] adj[j]).no_duplicates()
}

fn build_adjacency(dependencies: &Vec<(String, Vec<String>)>) -> (adj: Vec<Vec<(usize, usize)>>)
    requires
        distinct_names(dependency_graph(dependencies@)),
    ensures
        adj_sound(dependency_graph(dependencies@), adj_view(adj@)),
        forall|i: int, p: int, j: int| #[trigger]
            dep_edge(dependency_graph(dependencies@), i, p, j) ==> adj_view(adj@)[j].contains(
                (i as usize, p as usize),
            ),
{
    let ghost g = dependency_graph(dependencies@);
    let n = dependencies.len();
    let mut adj: Vec<Vec<(usize, usize)>> = Vec::new();
    let mut k: usize = 0;
    while k < n
        invariant
            n == dependencies@.len(),
            k <= n,
            adj@.len() == k,
            forall|j: int| 0 <= j < k ==> (#[trigger] adj@[j])@ == Seq::<(usize, usize)>::empty(),
        decreases n - k,
    {
        adj.push(Vec::new());
        k = k + 1;
    }
    let mut i: usize = 0;
    while i < n
        invariant
            n == dependencies@.len(),
            g == dependency_graph(dependencies@),
            distinct_names(g),
            i <= n,
            adj@.len() == n,
            forall|j: int, t: int|
                0 <= j < n && 0 <= t < adj@[j]@.len() ==> {
                    &&& dep_edge(g, (#[trigger] adj@[j]@[t]).0 as int, adj@[j]@[t].1 as int, j)
                    &&& adj@[j]@[t].0 < i
                },
            forall|j: int| 0 <= j < n ==> (#[trigger] adj@[j])@.no_duplicates(),
            forall|a: int, b: int, j: int|
                #![trigger dep_edge(g, a, b, j)]
                dep_edge(g, a, b, j) && a < i ==> adj@[j]@.contains((a as usize, b as usize)),
        decreases n - i,
    {
        let m = dependencies[i].1.len();
        let mut p: usize = 0;
        while p < m
            invariant
                n == dependencies@.len(),
                g == dependency_graph(dependencies@),
                distinct_names(g),
                i < n,
                m == g[i as int].1.len(),
                p <= m,
                adj@.len() == n,
                forall|j: int, t: int|
                    0 <= j < n && 0 <= t < adj@[j]@.len() ==> {
                        &&& dep_edge(g, (#[trigger] adj@[j]@[t]).0 as int, adj@[j]@[t].1 as int, j)
                        &&& (adj@[j]@[t].0 < i || (adj@[j]@[t].0 == i && adj@[j]@[t].1 < p))
                    },
                forall|j: int| 0 <= j < n ==> (#[trigger] adj@[j])@.no_duplicates(),
                forall|a: int, b: int, j: int|
                    #![trigger dep_edge(g, a, b, j)]
                    dep_edge(g, a, b, j) && (a < i || (a == i && b < p)) ==> adj@[j]@.contains(
                        (a as usize, b as usize),
                    ),
            decreases m - p,
        {
            let mut j: usize = 0;
            while j < n
                invariant
                    n == dependencies@.len(),
                    g == dependency_graph(dependencies@),
                    distinct_names(g),
                    i < n,
                    m == g[i as int].1.len(),
                    p < m,
                    j <= n,
                    adj@.len() == n,
                    forall|jj: int, t: int|
                        0 <= jj < n && 0 <= t < adj@[jj]@.len() ==> {
                            &&& dep_edge(
                                g,
                                (#[trigger] adj@[jj]@[t]).0 as int,
                                adj@[jj]@[t].1 as int,
                                jj,
                            )
                            &&& (adj@[jj]@[t].0 < i || (adj@[jj]@[t].0 == i && adj@[jj]@[t].1 < p)
                                || (adj@[jj]@[t].0 == i && adj@[jj]@[t].1 == p && jj < j))
                        },
                    forall|jj: int| 0 <= jj < n ==> (#[trigger] adj@[jj])@.no_duplicates(),
                    forall|a: int, b: int, jj: int|
                        #![trigger dep_edge(g, a, b, jj)]
                        dep_edge(g, a, b, jj) && (a < i || (a == i && b < p) || (a == i && b == p
                            && jj < j)) ==> adj@[jj]@.contains((a as usize, b as usize)),
                decreases n - j,
            {
                if dependencies[i].1[p] == dependencies[j].0 {
                    let ghost before = adj@;
                    adj[j].push((i, p));
                    proof {
                        assert(dep_edge(g, i as int, p as int, j as int));
                        assert forall|t: int| 0 <= t < before[j as int]@.len() implies before[j as int]@[t]
                            != (i, p) by {}
                        assert forall|jj: int| 0 <= jj < n implies (#[trigger] adj@[jj])@.no_duplicates() by {
                            if jj == j {
                                assert forall|x: int, y: int|
                                    0 <= x < adj@[jj]@.len() && 0 <= y < adj@[jj]@.len() && x != y implies adj@[jj]@[x]
                                    != adj@[jj]@[y] by {
                                    if x < before[jj]@.len() && y < before[jj]@.len() {
                                        assert(before[jj]@.no_duplicates());
                                    }
                                }
                            }
                        }
                        assert forall|a: int, b: int, jj: int|
                            #![trigger dep_edge(g, a, b, jj)]
                            dep_edge(g, a, b, jj) && (a < i || (a == i && b < p) || (a == i && b
                                == p && jj < j + 1)) implies adj@[jj]@.contains((a as usize, b as usize)) by {
                            if a == i && b == p && jj == j {
                                assert(adj@[jj]@[adj@[jj]@.len() - 1] == (a as usize, b as usize));
                            } else {
                                assert(before[jj]@.contains((a as usize, b as usize)));
                                let t = choose|t: int| 0 <= t < before[jj]@.len() && before[jj]@[t] == (a as usize, b as usize);
                                assert(adj@[jj]@[t] == before[jj]@[t]);
                            }
                        }
                    }
                } else {
                    proof {
                        assert(!dep_edge(g, i as int, p as int, j as int));
                    }
                }
                j = j + 1;
            }
            p = p + 1;
        }
        i = i + 1;
    }
    proof {
        let av = adj_view(adj@);
        assert forall|j: int, t: int| 0 <= j < av.len() && 0 <= t < av[j].len() implies dep_edge(
            g,
            (#[trigger] av[j][t]).0 as int,
            av[j][t].1 as int,
            j,
        ) by {
            assert(av[j] == adj@[j]@);
        }
        assert forall|j: int| 0 <= j < av.len() implies (#[trigger] av[j]).no_duplicates() by {
            assert(av[j] == adj@[j]@);
        }
        assert forall|a: int, b: int, j: int| #[trigger] dep_edge(g, a, b, j) implies av[j].contains(
            (a as usize, b as usize),
        ) by {
            assert(av[j] == adj@[j]@);
        }
    }
    adj
}

/// Some entry among the first `h` queued ones carries the name `d`.
pub open spec fn resolved_by(g: Seq<(Seq<char>, Seq<Seq<char>>)>, queue: Seq<usize>, h: int, d: Seq<char>) -> bool {
    exists|k: int| 0 <= k < h && g[queue[k] as int].0 == d
}

/// The positions of entry `i`'s dependencies not named by the first `h`
/// queued entries.
pub open spec fn unresolved(g: Seq<(Seq<char>, Seq<Seq<char>>)>, queue: Seq<usize>, h: int, i: int) -> Set<int> {
    Set::new(|p: int| 0 <= p < g[i].1.len() && !resolved_by(g, queue, h, g[i].1[p]))
}

/// Dependency `p` of the `q`-th queued entry is the name of an entry queued
/// before it.
pub open spec fn named_before(g: Seq<(Seq<char>, Seq<Seq<char>>)>, queue: Seq<usize>, q: int, p: int) -> bool {
    exists|rr: int| 0 <= rr < q && g[queue[rr] as int].0 == g[queue[q] as int].1[p]
}

/// The message returned when no dependency order exists.
pub open spec fn cycle_message() -> Seq<char> {
    "Circular dependency detected in plugin dependencies"@
}

/// A duplicate-free sequence of indices below `n` has at most `n` entries,
/// and has every index below `n` once it has `n` entries.
proof fn lemma_distinct_indices(s: Seq<usize>, n: int)
    requires
        s.no_duplicates(),
        forall|k: int| 0 <= k < s.len() ==> (#[trigger] s[k]) < n,
        0 <= n,
    ensures
        s.len() <= n,
        s.len() == n ==> forall|x: usize| (x as int) < n ==> #[trigger] s.contains(x),
{
    let m = s.map_values(|x: usize| x as int);
    assert forall|a: int, b: int| 0 <= a < m.len() && 0 <= b < m.len() && a != b implies m[a] != m[b] by {}
    m.unique_seq_to_set();
    vstd::set_lib::lemma_int_range(0, n);
    assert(m.to_set().subset_of(vstd::set_lib::set_int_range(0, n)));
    vstd::set_lib::lemma_len_subset(m.to_set(), vstd::set_lib::set_int_range(0, n));
    if s.len() == n {
        vstd::set_lib::lemma_subset_equality(m.to_set(), vstd::set_lib::set_int_range(0, n));
        assert forall|x: usize| (x as int) < n implies #[trigger] s.contains(x) by {
            assert(vstd::set_lib::set_int_range(0, n).contains(x as int));
            assert(m.to_set().contains(x as int));
            let k = choose|k: int| 0 <= k < m.len() && m[k] == x as int;
            assert(s[k] == x);
        }
    }
}

/// `d` is the name of some table entry.
pub open spec fn is_entry_name(g: Seq<(Seq<char>, Seq<Seq<char>>)>, d: Seq<char>) -> bool {
    exists|x: int| 0 <= x < g.len() && #[trigger] g[x].0 == d
}

/// Every entry of a dependency order is the name of some table entry.
proof fn lemma_order_lists_names(g: Seq<(Seq<char>, Seq<Seq<char>>)>, s: Seq<Seq<char>>)
    requires
        distinct_names(g),
        is_dependency_order(g, s),
    ensures
        forall|t: int| 0 <= t < s.len() ==> #[trigger] is_entry_name(g, s[t]),
{
    broadcast use vstd::seq_lib::group_seq_properties;

    let names = g.map_values(|e: (Seq<char>, Seq<Seq<char>>)| e.0);
    assert forall|a: int, b: int| 0 <= a < names.len() && 0 <= b < names.len() && a != b implies names[a]
        != names[b] by {}
    names.unique_seq_to_set();
    s.unique_seq_to_set();
    assert forall|x: Seq<char>| names.to_set().contains(x) implies s.to_set().contains(x) by {
        let i = choose|i: int| 0 <= i < names.len() && names[i] == x;
        assert(s.contains(g[i].0));
    }
    assert(names.to_set().finite());
    assert(s.to_set().finite());
    assert(names.to_set().len() == s.to_set().len());
    vstd::set_lib::lemma_subset_equality(names.to_set(), s.to_set());
    assert forall|t: int| 0 <= t < s.len() implies #[trigger] is_entry_name(g, s[t]) by {
        assert(s.to_set().contains(s[t]));
        assert(names.to_set().contains(s[t]));
        assert(names.contains(s[t]));
        let x = choose|x: int| 0 <= x < names.len() && names[x] == s[t];
        assert(0 <= x < names.len());
        assert(names[x] == g[x].0);
        assert(g[x].0 == s[t]);
    }
}

/// When every unqueued entry still has a dependency not named by any
/// queued entry, and some entry is unqueued, `s` is no dependency order:
/// the unqueued entry listed first in such an order would have all its
/// dependencies listed before it, hence queued.
proof fn lemma_stuck_has_no_order(
    g: Seq<(Seq<char>, Seq<Seq<char>>)>,
    queue: Seq<usize>,
    s: Seq<Seq<char>>,
    k: int,
    u: usize,
)
    requires
        g.len() <= usize::MAX,
        distinct_names(g),
        0 <= k <= s.len(),
        forall|t: int|
            #![trigger s[t]]
            0 <= t < k ==> exists|x: usize|
                #![trigger queue.contains(x)]
                x < g.len() && g[x as int].0 == s[t] && queue.contains(x),
        forall|i: usize|
            #![trigger queue.contains(i)]
            i < g.len() && !queue.contains(i) ==> exists|p: int|
                0 <= p < g[i as int].1.len() && !#[trigger] resolved_by(g, queue, queue.len() as int, g[i as int].1[p]),
        u < g.len(),
        !queue.contains(u),
    ensures
        !is_dependency_order(g, s),
    decreases s.len() - k,
{
    if is_dependency_order(g, s) {
        lemma_order_lists_names(g, s);
        if k == s.len() {
            assert(s.contains(g[u as int].0));
            let t = choose|t: int| 0 <= t < s.len() && s[t] == g[u as int].0;
            assert(exists|x: usize| #![trigger queue.contains(x)] x < g.len() && g[x as int].0 == s[t] && queue.contains(x));
            let x = choose|x: usize| #![trigger queue.contains(x)] x < g.len() && g[x as int].0 == s[t] && queue.contains(x);
            assert(x == u);
        } else {
            assert(is_entry_name(g, s[k]));
            let y = choose|x: int| 0 <= x < g.len() && #[trigger] g[x].0 == s[k];
            if queue.contains(y as usize) {
                assert forall|t: int| #![trigger s[t]] 0 <= t < k + 1 implies exists|x: usize|
                    #![trigger queue.contains(x)]
                    x < g.len() && g[x as int].0 == s[t] && queue.contains(x) by {
                    if t == k {
                        assert(g[(y as usize) as int].0 == s[t]);
                    }
                }
                lemma_stuck_has_no_order(g, queue, s, k + 1, u);
            } else {
                let yy = y as usize;
                assert(!queue.contains(yy));
                let p = choose|p: int|
                    0 <= p < g[yy as int].1.len() && !#[trigger] resolved_by(g, queue, queue.len() as int, g[yy as int].1[p]);
                let d = g[y].1[p];
                assert(s.contains(g[y].1[p]) && s.index_of(g[y].1[p]) < s.index_of(g[y].0));
                assert(s.contains(g[y].0));
                assert(s.index_of(g[y].0) == k) by {
                    let j = s.index_of(g[y].0);
                    assert(s[j] == g[y].0);
                }
                let t = s.index_of(d);
                assert(s[t] == d);
                assert(exists|x: usize| #![trigger queue.contains(x)] x < g.len() && g[x as int].0 == s[t] && queue.contains(x));
                let x = choose|x: usize| #![trigger queue.contains(x)] x < g.len() && g[x as int].0 == s[t] && queue.contains(x);
                let kk = choose|kk: int| 0 <= kk < queue.len() && queue[kk] == x;
                assert(g[queue[kk] as int].0 == d);
                assert(resolved_by(g, queue, queue.len() as int, d));
            }
        }
    }
}

/// Perform a topological sort of a dependency table
///
/// Returns the names in an order that lists every dependency before the
/// entries that depend on it, or the circular-dependency error when no
/// such order exists (a cycle, or a dependency on a name not in the table).
pub fn topological_sort(dependencies: &Vec<(String, Vec<String>)>) -> (r: Result<Vec<String>, String>)
    requires
        distinct_names(dependency_graph(dependencies@)),
    ensures
        match r {
            Ok(sorted) => is_dependency_order(dependency_graph(dependencies@), string_views(sorted@)),
            Err(msg) => msg@ == cycle_message() && !has_dependency_order(
                dependency_graph(dependencies@),
            ),
        },
        r is Ok <==> has_dependency_order(dependency_graph(dependencies@)),
{
    let ghost g = dependency_graph(dependencies@);
    let n = dependencies.len();
    let adj = build_adjacency(dependencies);
    let ghost av = adj_view(adj@);

    // in-degree: the number of dependency positions not yet resolved
    let mut in_degree: Vec<usize> = Vec::new();
    let mut queue: Vec<usize> = Vec::new();
    let ghost mut unres: Seq<Set<int>> = Seq::empty();
    let mut i: usize = 0;
    while i < n
        invariant
            n == dependencies@.len(),
            g == dependency_graph(dependencies@),
            i <= n,
            in_degree@.len() == i,
            unres.len() == i,
            forall|x: int| 0 <= x < i ==> #[trigger] unres[x] == unresolved(g, queue@, 0, x),
            forall|x: int| 0 <= x < i ==> (#[trigger] unres[x]).finite() && in_degree@[x] == unres[x].len(),
            queue@.no_duplicates(),
            forall|k: int| 0 <= k < queue@.len() ==> (#[trigger] queue@[k]) < i,
            forall|x: int| 0 <= x < i ==> (queue@.contains(x as usize) <==> #[trigger] in_degree@[x] == 0),
            forall|q: int, p: int|
                0 <= q < queue@.len() && 0 <= p < g[queue@[q] as int].1.len() ==> #[trigger] named_before(g, queue@, q, p),
        decreases n - i,
    {
        let d = dependencies[i].1.len();
        proof {
            vstd::set_lib::lemma_int_range(0, d as int);
            assert(unresolved(g, queue@, 0, i as int) =~= vstd::set_lib::set_int_range(0, d as int));
        }
        in_degree.push(d);
        proof {
            unres = unres.push(unresolved(g, queue@, 0, i as int));
        }
        let ghost qb = queue@;
        proof {
            assert(!qb.contains(i));
        }
        if d == 0 {
            queue.push(i);
        }
        proof {
            assert forall|x: int| 0 <= x < i + 1 implies (queue@.contains(x as usize) <==> #[trigger] in_degree@[x] == 0) by {
                if x < i {
                    if queue@.contains(x as usize) {
                        let k = choose|k: int| 0 <= k < queue@.len() && queue@[k] == x as usize;
                        assert(k < qb.len());
                        assert(qb[k] == queue@[k]);
                    }
                    if qb.contains(x as usize) {
                        let k = choose|k: int| 0 <= k < qb.len() && qb[k] == x as usize;
                        assert(queue@[k] == qb[k]);
                    }
                } else {
                    if d == 0 {
                        assert(queue@[queue@.len() - 1] == i);
                    }
                }
            }
            assert forall|q: int, p: int|
                0 <= q < queue@.len() && 0 <= p < g[queue@[q] as int].1.len() implies #[trigger] named_before(g, queue@, q, p) by {
                if q < qb.len() {
                    assert(named_before(g, qb, q, p));
                    let rr = choose|rr: int| 0 <= rr < q && g[qb[rr] as int].0 == g[qb[q] as int].1[p];
                    assert(queue@[rr] == qb[rr]);
                    assert(queue@[q] == qb[q]);
                }
            }
            assert forall|x: int| 0 <= x < i + 1 implies #[trigger] unres[x] == unresolved(g, queue@, 0, x) by {
                assert(unres[x] =~= unresolved(g, queue@, 0, x));
            }
        }
        i = i + 1;
    }

    let mut head: usize = 0;
    let mut sorted: Vec<String> = Vec::new();
    proof {
        lemma_distinct_indices(queue@, n as int);
        assert forall|x: int| 0 <= x < n implies (#[trigger] g[x]).1.len() <= usize::MAX by {
            assert(dependencies@[x].1.len() <= usize::MAX);
            assert(g[x].1.len() == dependencies@[x].1@.len());
        }
        assert forall|x: int, b: int| 0 <= x < n && #[trigger] unres[x].contains(b) implies 0 <= b < g[x].1.len() by {}
    }
    while head < queue.len()
        invariant
            n == dependencies@.len(),
            g == dependency_graph(dependencies@),
            distinct_names(g),
            adj_sound(g, av),
            av == adj_view(adj@),
            forall|a: int, b: int, j: int| #[trigger] dep_edge(g, a, b, j) ==> av[j].contains((a as usize, b as usize)),
            in_degree@.len() == n,
            unres.len() == n,
            forall|x: int| 0 <= x < n ==> (#[trigger] g[x]).1.len() <= usize::MAX,
            forall|x: int, b: int| 0 <= x < n && #[trigger] unres[x].contains(b) ==> 0 <= b < g[x].1.len(),
            head <= queue@.len() <= n,
            queue@.no_duplicates(),
            forall|k: int| 0 <= k < queue@.len() ==> (#[trigger] queue@[k]) < n,
            sorted@.len() == head,
            forall|k: int| 0 <= k < head ==> (#[trigger] sorted@[k])@ == g[queue@[k] as int].0,
            forall|x: int| 0 <= x < n ==> #[trigger] unres[x] == unresolved(g, queue@, head as int, x),
            forall|x: int| 0 <= x < n ==> (#[trigger] unres[x]).finite() && in_degree@[x] == unres[x].len(),
            forall|x: int| 0 <= x < n ==> (queue@.contains(x as usize) <==> #[trigger] in_degree@[x] == 0),
            forall|q: int, p: int|
                0 <= q < queue@.len() && 0 <= p < g[queue@[q] as int].1.len() ==> #[trigger] named_before(g, queue@, q, p),
        decreases n - head,
    {
        let node = queue[head];
        let ghost old_head = head as int;
        let ghost q0 = queue@;
        let ghost unres0 = unres;
        head = head + 1;
        sorted.push(dependencies[node].0.clone());

        let m = adj[node].len();
        let mut t: usize = 0;
        while t < m
            invariant
                n == dependencies@.len(),
                g == dependency_graph(dependencies@),
                distinct_names(g),
                adj_sound(g, av),
                av == adj_view(adj@),
                forall|a: int, b: int, j: int| #[trigger] dep_edge(g, a, b, j) ==> av[j].contains((a as usize, b as usize)),
                node < n,
                node == q0[old_head],
                head == old_head + 1,
                0 <= old_head < q0.len(),
                m == av[node as int].len(),
                t <= m,
                in_degree@.len() == n,
                unres.len() == n,
                forall|x: int| 0 <= x < n ==> (#[trigger] g[x]).1.len() <= usize::MAX,
                head <= queue@.len() <= n,
                queue@.len() >= q0.len(),
                queue@.subrange(0, q0.len() as int) == q0,
                queue@.no_duplicates(),
                forall|k: int| 0 <= k < queue@.len() ==> (#[trigger] queue@[k]) < n,
                forall|x: int| 0 <= x < n ==> #[trigger] unres0[x] == unresolved(g, q0, old_head, x),
                forall|x: int, b: int| 0 <= x < n && 0 <= b < g[x].1.len() ==> (#[trigger] unres[x].contains(b) <==> (unres0[x].contains(b)
                    && !(exists|tt: int| 0 <= tt < t && #[trigger] av[node as int][tt] == (x as usize, b as usize)))),
                forall|x: int, b: int| 0 <= x < n && #[trigger] unres[x].contains(b) ==> 0 <= b < g[x].1.len(),
                forall|x: int| 0 <= x < n ==> (#[trigger] unres[x]).finite() && in_degree@[x] == unres[x].len(),
                forall|x: int| 0 <= x < n ==> (queue@.contains(x as usize) <==> #[trigger] in_degree@[x] == 0),
                forall|q: int, p: int|
                    0 <= q < queue@.len() && 0 <= p < g[queue@[q] as int].1.len() ==> #[trigger] named_before(g, queue@, q, p),
            decreases m - t,
        {
            let (dependent, position) = adj[node][t];
            proof {
                assert(av[node as int][t as int] == (dependent, position));
                assert(dep_edge(g, dependent as int, position as int, node as int));
                // the position is still unresolved
                assert(!resolved_by(g, q0, old_head, g[dependent as int].1[position as int])) by {
                    if resolved_by(g, q0, old_head, g[dependent as int].1[position as int]) {
                        let k = choose|k: int| 0 <= k < old_head && g[q0[k] as int].0 == g[dependent as int].1[position as int];
                        assert(q0[k] == node);
                        assert(q0.no_duplicates());
                    }
                }
                assert(unres0[dependent as int].contains(position as int));
                assert forall|tt: int| 0 <= tt < t implies av[node as int][tt] != (dependent, position) by {
                    assert(av[node as int].no_duplicates());
                }
                assert(unres[dependent as int].contains(position as int));
                assert(unres[dependent as int].remove(position as int).len() == unres[dependent as int].len() - 1);
            }
            let deg = in_degree[dependent] - 1;
            in_degree.set(dependent, deg);
            let ghost unres_before = unres;
            proof {
                unres = unres.update(dependent as int, unres[dependent as int].remove(position as int));
                assert forall|x: int, b: int| 0 <= x < n && 0 <= b < g[x].1.len() implies (#[trigger] unres[x].contains(b) <==> (unres0[x].contains(b)
                    && !(exists|tt: int| 0 <= tt < t + 1 && #[trigger] av[node as int][tt] == (x as usize, b as usize)))) by {
                    if x == dependent && b == position {
                        assert(av[node as int][t as int] == (x as usize, b as usize));
                    } else {
                        assert(unres[x].contains(b) == unres_before[x].contains(b));
                        if exists|tt: int| 0 <= tt < t + 1 && #[trigger] av[node as int][tt] == (x as usize, b as usize) {
                            let tt = choose|tt: int| 0 <= tt < t + 1 && #[trigger] av[node as int][tt] == (x as usize, b as usize);
                            if tt == t {
                                assert((x as usize, b as usize) == (dependent, position));
                                assert(x == dependent as int);
                                assert(b == position as int);
                            }
                        }
                    }
                }
                assert forall|x: int, b: int| 0 <= x < n && #[trigger] unres[x].contains(b) implies 0 <= b < g[x].1.len() by {
                    assert(unres_before[x].contains(b));
                }
            }
            let ghost qb = queue@;
            if deg == 0 {
                proof {
                    assert(!qb.contains(dependent));
                }
                queue.push(dependent);
                proof {
                    assert(unres[dependent as int] =~= Set::<int>::empty()) by {
                        unres[dependent as int].lemma_len0_is_empty();
                    }
                    let q = qb.len() as int;
                    assert(queue@[q] == dependent);
                    assert forall|p: int| 0 <= p < g[queue@[q] as int].1.len() implies #[trigger] named_before(g, queue@, q, p) by {
                        assert(!unres[dependent as int].contains(p));
                        if unres0[dependent as int].contains(p) {
                            let tt = choose|tt: int| 0 <= tt < t + 1 && #[trigger] av[node as int][tt] == (dependent, p as usize);
                            assert(dep_edge(g, av[node as int][tt].0 as int, av[node as int][tt].1 as int, node as int));
                            assert(dep_edge(g, dependent as int, p, node as int));
                            assert(queue@[old_head] == q0[old_head]);
                            assert(g[queue@[old_head] as int].0 == g[queue@[q] as int].1[p]);
                        } else {
                            assert(resolved_by(g, q0, old_head, g[dependent as int].1[p]));
                            let k = choose|k: int| 0 <= k < old_head && g[q0[k] as int].0 == g[dependent as int].1[p];
                            assert(queue@[k] == q0[k]);
                        }
                    }
                    assert forall|qq: int, p: int|
                        0 <= qq < queue@.len() && 0 <= p < g[queue@[qq] as int].1.len() implies #[trigger] named_before(g, queue@, qq, p) by {
                        if qq < q {
                            assert(queue@[qq] == qb[qq]);
                            assert(named_before(g, qb, qq, p));
                            let rr = choose|rr: int| 0 <= rr < qq && g[qb[rr] as int].0 == g[qb[qq] as int].1[p];
                            assert(queue@[rr] == qb[rr]);
                        }
                    }
                    assert(queue@.subrange(0, q0.len() as int) =~= q0) by {
                        assert(qb.subrange(0, q0.len() as int) == q0);
                    }
                    lemma_distinct_indices(queue@, n as int);
                }
            }
            proof {
                assert forall|x: int| 0 <= x < n implies (queue@.contains(x as usize) <==> #[trigger] in_degree@[x] == 0) by {
                    if x != dependent {
                        if queue@.contains(x as usize) {
                            let k = choose|k: int| 0 <= k < queue@.len() && queue@[k] == x as usize;
                            assert(k < qb.len());
                            assert(qb[k] == queue@[k]);
                        }
                        if qb.contains(x as usize) {
                            let k = choose|k: int| 0 <= k < qb.len() && qb[k] == x as usize;
                            assert(queue@[k] == qb[k]);
                        }
                    } else {
                        if deg == 0 {
                            assert(queue@[queue@.len() - 1] == dependent);
                        } else {
                            assert(queue@ == qb);
                        }
                    }
                }
            }
            t = t + 1;
        }
        proof {
            assert forall|x: int| 0 <= x < n implies #[trigger] unres[x] == unresolved(g, queue@, head as int, x) by {
                assert forall|b: int| unres[x].contains(b) <==> unresolved(g, queue@, head as int, x).contains(b) by {
                    if 0 <= b < g[x].1.len() {
                        let d = g[x].1[b];
                        if resolved_by(g, queue@, head as int, d) {
                            let k = choose|k: int| 0 <= k < head && g[queue@[k] as int].0 == d;
                            if k < old_head {
                                assert(queue@[k] == q0[k]);
                                assert(resolved_by(g, q0, old_head, d));
                            } else {
                                assert(queue@[k] == node);
                                assert(dep_edge(g, x, b, node as int));
                                assert(av[node as int].contains((x as usize, b as usize)));
                                let tt = choose|tt: int| 0 <= tt < av[node as int].len() && av[node as int][tt] == (x as usize, b as usize);
                                assert(av[node as int][tt] == (x as usize, b as usize));
                            }
                        } else {
                            assert(!resolved_by(g, q0, old_head, d)) by {
                                if resolved_by(g, q0, old_head, d) {
                                    let k = choose|k: int| 0 <= k < old_head && g[q0[k] as int].0 == d;
                                    assert(queue@[k] == q0[k]);
                                }
                            }
                            assert(d != g[node as int].0) by {
                                if d == g[node as int].0 {
                                    assert(queue@[old_head] == node);
                                }
                            }
                            assert forall|tt: int| 0 <= tt < m implies av[node as int][tt] != (x as usize, b as usize) by {
                                let e = av[node as int][tt];
                                assert(dep_edge(g, e.0 as int, e.1 as int, node as int));
                            }
                        }
                    }
                }
                assert(unres[x] =~= unresolved(g, queue@, head as int, x));
            }
            assert forall|k: int| 0 <= k < head implies (#[trigger] sorted@[k])@ == g[queue@[k] as int].0 by {
                assert(queue@[k] == q0[k]);
            }
        }
    }

    if sorted.len() != n {
        proof {
            assert(head == queue@.len());
            assert(exists|x: usize| #![trigger queue@.contains(x)] x < n && !queue@.contains(x)) by {
                if forall|x: usize| #![trigger queue@.contains(x)] x < n ==> queue@.contains(x) {
                    let im = queue@.map_values(|x: usize| x as int);
                    vstd::set_lib::lemma_int_range(0, n as int);
                    assert forall|a: int, b: int| 0 <= a < im.len() && 0 <= b < im.len() && a != b implies im[a] != im[b] by {}
                    im.unique_seq_to_set();
                    assert forall|x: int| vstd::set_lib::set_int_range(0, n as int).contains(x) implies im.to_set().contains(x) by {
                        assert(queue@.contains(x as usize));
                        let k = choose|k: int| 0 <= k < queue@.len() && queue@[k] == x as usize;
                        assert(im[k] == x);
                    }
                    vstd::set_lib::lemma_len_subset(vstd::set_lib::set_int_range(0, n as int), im.to_set());
                }
            }
            assert forall|x: usize| #![trigger queue@.contains(x)] x < g.len() && !queue@.contains(x) implies exists|p: int|
                0 <= p < g[x as int].1.len() && !#[trigger] resolved_by(g, queue@, queue@.len() as int, g[x as int].1[p]) by {
                assert(in_degree@[x as int] != 0);
                assert(unres[x as int].len() != 0);
                if unres[x as int] =~= Set::<int>::empty() {
                    assert(unres[x as int].len() == 0);
                }
                let p = unres[x as int].choose();
                assert(unres[x as int].contains(p));
            }
            let u = choose|x: usize| #![trigger queue@.contains(x)] x < n && !queue@.contains(x);
            if has_dependency_order(g) {
                let s = choose|s: Seq<Seq<char>>| is_dependency_order(g, s);
                lemma_stuck_has_no_order(g, queue@, s, 0, u);
            }
        }
        return Err(String::from_str("Circular dependency detected in plugin dependencies"));
    }
    proof {
        assert(head == queue@.len());
        lemma_distinct_indices(queue@, n as int);
        let sv = string_views(sorted@);
        assert forall|k: int| 0 <= k < n implies #[trigger] sv[k] == g[queue@[k] as int].0 by {
            assert(sv[k] == sorted@[k]@);
        }
        assert forall|a: int, b: int| 0 <= a < n && 0 <= b < n && a != b implies sv[a] != sv[b] by {
            assert(queue@[a] != queue@[b]);
        }
        assert forall|x: int| 0 <= x < n implies sv.contains(#[trigger] g[x].0) by {
            assert(queue@.contains(x as usize));
            let k = choose|k: int| 0 <= k < queue@.len() && queue@[k] == x as usize;
            assert(sv[k] == g[x].0);
        }
        assert forall|x: int, p: int| 0 <= x < n && 0 <= p < g[x].1.len() implies {
            &&& sv.contains(#[trigger] g[x].1[p])
            &&& sv.index_of(g[x].1[p]) < sv.index_of(g[x].0)
        } by {
            assert(queue@.contains(x as usize));
            let q = choose|q: int| 0 <= q < queue@.len() && queue@[q] == x as usize;
            assert(named_before(g, queue@, q, p));
            let rr = choose|rr: int| 0 <= rr < q && g[queue@[rr] as int].0 == g[queue@[q] as int].1[p];
            assert(sv[rr] == g[x].1[p]);
            assert(sv[q] == g[x].0);
            assert(sv.index_of(g[x].1[p]) == rr);
            assert(sv.index_of(g[x].0) == q);
        }
        assert(is_dependency_order(g, sv));
    }
    Ok(sorted)
}

/// What `semver::Version::parse` yields for a text, as
/// `(major, minor, patch)`, or `None` where it returns an error.
pub uninterp spec fn semver_parse(text: Seq<char>) -> Option<(u64, u64, u64)>;

/// Parses a semantic version with `semver::Version::parse`.
///
/// Trusted: the result is `semver_parse` of the text, the parsed major,
/// minor and patch numbers, or `None` when the crate reports an error.
/// What texts the crate accepts is left to its grammar and not stated.
#[verifier::external_body]
fn parse_version(text: &str) -> (r: Option<(u64, u64, u64)>)
    ensures
        r == semver_parse(text@),
{
    match semver::Version::parse(text) {
        Ok(v) => Some((v.major, v.minor, v.patch)),
        Err(_) => None,
    }
}

/// Compatibility of two parsed versions: both parse, the majors agree, and
/// the plugin's minor is at most the engine's (equal to it under major 0,
/// where minor versions are breaking). Patch versions are ignored.
pub open spec fn versions_compatible(
    plugin: Option<(u64, u64, u64)>,
    engine: Option<(u64, u64, u64)>,
) -> bool {
    match (plugin, engine) {
        (Some(p), Some(e)) => p.0 == e.0 && if p.0 != 0 {
            p.1 <= e.1
        } else {
            p.1 == e.1
        },
        _ => false,
    }
}

/// Decide compatibility of two parsed versions.
pub fn parsed_versions_compatible(
    plugin: Option<(u64, u64, u64)>,
    engine: Option<(u64, u64, u64)>,
) -> (r: bool)
    ensures
        r == versions_compatible(plugin, engine),
{
    let plugin_ver = match plugin {
        Some(v) => v,
        None => return false,
    };
    let engine_ver = match engine {
        Some(v) => v,
        None => return false,
    };
    if plugin_ver.0 != engine_ver.0 {
        return false;
    }
    if plugin_ver.0 != 0 {
        plugin_ver.1 <= engine_ver.1
    } else {
        plugin_ver.1 == engine_ver.1
    }
}

/// Check if a plugin API version is compatible with the engine
///
/// Uses semantic versioning rules: the major version must match; for major
/// version 0 the minor versions must match; for major version 1 or more the
/// plugin's minor version may not exceed the engine's; patch is ignored.
/// A text that does not parse is incompatible.
pub fn is_version_compatible(plugin_version: &str, engine_version: &str) -> (r: bool)
    ensures
        r == versions_compatible(semver_parse(plugin_version@), semver_parse(engine_version@)),
{
    let plugin_ver = parse_version(plugin_version);
    if plugin_ver.is_none() {
        return false;
    }
    let engine_ver = parse_version(engine_version);
    parsed_versions_compatible(plugin_ver, engine_ver)
}

/// `a`, `b` and `c` joined.
fn join3(a: &str, b: &str, c: &str) -> (r: String)
    ensures
        r@ == a@ + b@ + c@,
{
    let mut r = String::from_str(a);
    r.append(b);
    r.append(c);
    r
}

/// The message refusing a registration after initialization.
pub open spec fn registration_closed_message() -> Seq<char> {
    "Cannot register plugins after initialization"@
}

/// The message refusing a second plugin under one name.
pub open spec fn already_registered_message(name: Seq<char>) -> Seq<char> {
    "Plugin '"@ + name + "' is already registered"@
}

/// The message refusing a plugin whose API version is incompatible.
pub open spec fn incompatible_version_message(name: Seq<char>, version: Seq<char>) -> Seq<char> {
    "Plugin '"@ + name + "' API version "@ + version + " is incompatible with engine API version "@
        + PLUGIN_API_VERSION@
}

/// The message refusing a dependency on a plugin that is not registered.
pub open spec fn missing_dependency_message(name: Seq<char>, dep: Seq<char>) -> Seq<char> {
    "Plugin '"@ + name + "' depends on '"@ + dep + "' which is not registered"@
}

/// The message refusing a second initialization.
pub open spec fn already_initialized_message() -> Seq<char> {
    "Registry already initialized"@
}

/// The message refusing an update before initialization.
pub open spec fn not_initialized_message() -> Seq<char> {
    "Registry not initialized"@
}

/// The message refusing discovery after initialization.
pub open spec fn discovery_closed_message() -> Seq<char> {
    "Cannot discover plugins after initialization"@
}

/// The message reporting that a plugin's lifecycle hook failed.
pub open spec fn hook_failure_message(stage: Seq<char>, name: Seq<char>, error: Seq<char>) -> Seq<char> {
    "Failed to "@ + stage + " plugin '"@ + name + "': "@ + error
}

/// `dependencies[i][p]` is the first dependency, in registration order and
/// then in listed order, that names no registered plugin.
pub open spec fn first_missing_dependency(
    names: Seq<Seq<char>>,
    dependencies: Seq<Seq<Seq<char>>>,
    i: int,
    p: int,
) -> bool {
    &&& 0 <= i < dependencies.len()
    &&& 0 <= p < dependencies[i].len()
    &&& !names.contains(dependencies[i][p])
    &&& forall|k: int, q: int|
        0 <= k < i && 0 <= q < dependencies[k].len() ==> names.contains(#[trigger] dependencies[k][q])
    &&& forall|q: int| 0 <= q < p ==> names.contains(#[trigger] dependencies[i][q])
}

/// Plugin registry state: which plugins are registered (in registration
/// order), the order in which they were initialized, and whether the
/// registry is initialized.
///
/// The registry decides every request; running the plugins' lifecycle
/// hooks in the order it gives is left to its caller.
pub struct PluginRegistry {
    names: Vec<String>,
    load_order: Vec<String>,
    initialized: bool,
}

impl PluginRegistry {
    /// The registered plugin names, in registration order.
    pub closed spec fn registered(&self) -> Seq<Seq<char>> {
        string_views(self.names@)
    }

    /// The plugin names in initialization order.
    pub closed spec fn spec_load_order(&self) -> Seq<Seq<char>> {
        string_views(self.load_order@)
    }

    /// Whether the registry is initialized.
    pub closed spec fn spec_initialized(&self) -> bool {
        self.initialized
    }

    /// Registered names are distinct.
    pub closed spec fn wf(&self) -> bool {
        forall|a: int, b: int|
            0 <= a < self.names@.len() && 0 <= b < self.names@.len() && a != b ==> self.names@[a]@
                != self.names@[b]@
    }

    /// The registered names of a well-formed registry are distinct.
    proof fn lemma_registered_distinct(&self)
        requires
            self.wf(),
        ensures
            self.registered().no_duplicates(),
    {
        assert forall|a: int, b: int|
            0 <= a < self.registered().len() && 0 <= b < self.registered().len() && a != b implies self.registered()[a]
                != self.registered()[b] by {
            assert(self.registered()[a] == self.names@[a]@);
            assert(self.registered()[b] == self.names@[b]@);
        }
    }

    /// Create a new plugin registry
    pub fn new() -> (r: Self)
        ensures
            r.wf(),
            r.registered() == Seq::<Seq<char>>::empty(),
            r.spec_load_order() == Seq::<Seq<char>>::empty(),
            !r.spec_initialized(),
    {
        let r = PluginRegistry { names: Vec::new(), load_order: Vec::new(), initialized: false };
        assert(r.registered() =~= Seq::<Seq<char>>::empty());
        assert(r.spec_load_order() =~= Seq::<Seq<char>>::empty());
        r
    }

    /// Register a plugin by name and the API version it was built against
    ///
    /// Refused after initialization, for a name already registered, and for
    /// an API version incompatible with `PLUGIN_API_VERSION`, in that order
    /// of precedence; otherwise the name is appended to the registered ones.
    pub fn register(&mut self, name: String, api_version: &str) -> (r: Result<(), String>)
        requires
            old(self).wf(),
        ensures
            final(self).wf(),
            final(self).spec_load_order() == old(self).spec_load_order(),
            final(self).spec_initialized() == old(self).spec_initialized(),
            match r {
                Ok(()) => {
                    &&& !old(self).spec_initialized()
                    &&& !old(self).registered().contains(name@)
                    &&& versions_compatible(semver_parse(api_version@), semver_parse(PLUGIN_API_VERSION@))
                    &&& final(self).registered() == old(self).registered().push(name@)
                },
                Err(m) => {
                    &&& final(self).registered() == old(self).registered()
                    &&& m@ == (if old(self).spec_initialized() {
                        registration_closed_message()
                    } else if old(self).registered().contains(name@) {
                        already_registered_message(name@)
                    } else {
                        incompatible_version_message(name@, api_version@)
                    })
                    &&& (old(self).spec_initialized() || old(self).registered().contains(name@)
                        || !versions_compatible(semver_parse(api_version@), semver_parse(PLUGIN_API_VERSION@)))
                },
            },
    {
        if self.initialized {
            return Err(String::from_str("Cannot register plugins after initialization"));
        }
        let n = self.names.len();
        let mut i: usize = 0;
        while i < n
            invariant
                n == self.names@.len(),
                i <= n,
                self.names@ == old(self).names@,
                self.load_order@ == old(self).load_order@,
                self.initialized == old(self).initialized,
                !self.initialized,
                old(self).wf(),
                forall|k: int| 0 <= k < i ==> (#[trigger] self.names@[k])@ != name@,
            decreases n - i,
        {
            if self.names[i] == name {
                proof {
                    assert(string_views(self.names@)[i as int] == name@);
                }
                return Err(join3("Plugin '", name.as_str(), "' is already registered"));
            }
            i = i + 1;
        }
        proof {
            assert forall|k: int| 0 <= k < self.registered().len() implies self.registered()[k] != name@ by {
                assert(self.registered()[k] == self.names@[k]@);
            }
        }
        if !is_version_compatible(api_version, PLUGIN_API_VERSION) {
            let mut m = join3("Plugin '", name.as_str(), "' API version ");
            m.append(api_version);
            m.append(" is incompatible with engine API version ");
            m.append(PLUGIN_API_VERSION);
            return Err(m);
        }
        let ghost old_names = self.names@;
        self.names.push(name);
        proof {
            assert(self.registered() =~= string_views(old_names).push(name@));
        }
        Ok(())
    }

    /// Discover plugins from configured search paths
    ///
    /// Dynamic loading is not supported, so no plugin is ever discovered:
    /// refused after initialization, and otherwise zero plugins found.
    pub fn discover_plugins(&self) -> (r: Result<usize, String>)
        ensures
            match r {
                Ok(count) => !self.spec_initialized() && count == 0,
                Err(m) => self.spec_initialized() && m@ == discovery_closed_message(),
            },
    {
        if self.initialized {
            return Err(String::from_str("Cannot discover plugins after initialization"));
        }
        Ok(0)
    }

    /// Whether `name` is registered.
    fn is_registered(&self, name: &String) -> (r: bool)
        ensures
            r == self.registered().contains(name@),
    {
        let n = self.names.len();
        let mut i: usize = 0;
        while i < n
            invariant
                n == self.names@.len(),
                i <= n,
                forall|k: int| 0 <= k < i ==> (#[trigger] self.names@[k])@ != name@,
            decreases n - i,
        {
            if self.names[i] == *name {
                proof {
                    assert(self.registered()[i as int] == name@);
                }
                return true;
            }
            i = i + 1;
        }
        proof {
            if self.registered().contains(name@) {
                let k = choose|k: int| 0 <= k < self.registered().len() && self.registered()[k] == name@;
                assert(self.registered()[k] == self.names@[k]@);
            }
        }
        false
    }

    /// Resolve the initialization order from each registered plugin's
    /// dependencies (`dependencies[i]` lists those of the `i`-th registered
    /// plugin)
    ///
    /// Refused when the registry is initialized, when a plugin depends on a
    /// name that is not registered, and when the dependencies are circular.
    /// On success the load order lists every registered plugin after all of
    /// its dependencies; the plugins are to be initialized in that order.
    pub fn begin_initialization(&mut self, dependencies: &Vec<Vec<String>>) -> (r: Result<(), String>)
        requires
            old(self).wf(),
            dependencies@.len() == old(self).registered().len(),
        ensures
            final(self).wf(),
            final(self).registered() == old(self).registered(),
            final(self).spec_initialized() == old(self).spec_initialized(),
            match r {
                Ok(()) => {
                    &&& !old(self).spec_initialized()
                    &&& is_dependency_order(
                        dependency_table(old(self).registered(), nested_views(dependencies@)),
                        final(self).spec_load_order(),
                    )
                },
                Err(m) => {
                    &&& final(self).spec_load_order() == old(self).spec_load_order()
                    &&& if old(self).spec_initialized() {
                        m@ == already_initialized_message()
                    } else if exists|i: int, p: int|
                        #![trigger nested_views(dependencies@)[i][p]]
                        0 <= i < dependencies@.len() && 0 <= p < nested_views(dependencies@)[i].len()
                            && !old(self).registered().contains(nested_views(dependencies@)[i][p]) {
                        exists|i: int, p: int|
                            #[trigger] first_missing_dependency(
                                old(self).registered(),
                                nested_views(dependencies@),
                                i,
                                p,
                            ) && m@ == missing_dependency_message(
                                old(self).registered()[i],
                                nested_views(dependencies@)[i][p],
                            )
                    } else {
                        &&& m@ == cycle_message()
                        &&& !has_dependency_order(
                            dependency_table(old(self).registered(), nested_views(dependencies@)),
                        )
                    }
                },
            },
    {
        if self.initialized {
            return Err(String::from_str("Registry already initialized"));
        }
        let n = self.names.len();
        let ghost dv = nested_views(dependencies@);
        let mut table: Vec<(String, Vec<String>)> = Vec::new();
        let mut i: usize = 0;
        while i < n
            invariant
                n == self.names@.len(),
                n == dependencies@.len(),
                dv == nested_views(dependencies@),
                i <= n,
                self.names@ == old(self).names@,
                self.load_order@ == old(self).load_order@,
                self.initialized == old(self).initialized,
                !old(self).initialized,
                old(self).wf(),
                table@.len() == i,
                forall|k: int| 0 <= k < i ==> dependency_graph(table@)[k] == (#[trigger] self.registered()[k], dv[k]),
                forall|k: int, p: int| 0 <= k < i && 0 <= p < dv[k].len() ==> self.registered().contains(#[trigger] dv[k][p]),
            decreases n - i,
        {
            let m = dependencies[i].len();
            let mut p: usize = 0;
            while p < m
                invariant
                    n == self.names@.len(),
                    n == dependencies@.len(),
                    dv == nested_views(dependencies@),
                    i < n,
                    m == dv[i as int].len(),
                    p <= m,
                    self.names@ == old(self).names@,
                    self.load_order@ == old(self).load_order@,
                    self.initialized == old(self).initialized,
                    !old(self).initialized,
                    old(self).wf(),
                    table@.len() == i,
                    forall|k: int| 0 <= k < i ==> dependency_graph(table@)[k] == (#[trigger] self.registered()[k], dv[k]),
                    forall|k: int, q: int| 0 <= k < i && 0 <= q < dv[k].len() ==> self.registered().contains(#[trigger] dv[k][q]),
                    forall|q: int| 0 <= q < p ==> self.registered().contains(#[trigger] dv[i as int][q]),
                decreases m - p,
            {
                assert(dependencies@[i as int]@[p as int]@ == dv[i as int][p as int]);
                if !self.is_registered(&dependencies[i][p]) {
                    let mut msg = join3("Plugin '", self.names[i].as_str(), "' depends on '");
                    msg.append(dependencies[i][p].as_str());
                    msg.append("' which is not registered");
                    proof {
                        assert(self.registered()[i as int] == self.names@[i as int]@);
                        assert(0 <= i < dependencies@.len() && 0 <= p < nested_views(dependencies@)[i as int].len()
                            && !old(self).registered().contains(nested_views(dependencies@)[i as int][p as int]));
                        assert(first_missing_dependency(old(self).registered(), dv, i as int, p as int));
                    }
                    return Err(msg);
                }
                p = p + 1;
            }
            let entry = (self.names[i].clone(), dependencies[i].clone());
            let ghost before = table@;
            table.push(entry);
            proof {
                assert(entry.1@ == dependencies@[i as int]@);
                assert(dependency_graph(table@)[i as int].1 =~= dv[i as int]);
                assert(self.registered()[i as int] == self.names@[i as int]@);
                assert forall|k: int| 0 <= k < i + 1 implies dependency_graph(table@)[k] == (#[trigger] self.registered()[k], dv[k]) by {
                    if k < i {
                        assert(table@[k] == before[k]);
                        assert(dependency_graph(table@)[k] == dependency_graph(before)[k]);
                    }
                }
            }
            i = i + 1;
        }
        proof {
            assert(dependency_graph(table@) =~= dependency_table(self.registered(), dv));
            assert(distinct_names(dependency_graph(table@))) by {
                assert forall|a: int, b: int| 0 <= a < n && 0 <= b < n && a != b implies
                    dependency_graph(table@)[a].0 != dependency_graph(table@)[b].0 by {
                    assert(self.registered()[a] == self.names@[a]@);
                    assert(self.registered()[b] == self.names@[b]@);
                }
            }
            assert(!(exists|i: int, p: int|
                #![trigger nested_views(dependencies@)[i][p]]
                0 <= i < dependencies@.len() && 0 <= p < nested_views(dependencies@)[i].len()
                    && !old(self).registered().contains(nested_views(dependencies@)[i][p])));
        }
        match topological_sort(&table) {
            Ok(order) => {
                proof {
                    assert(is_dependency_order(dependency_graph(table@), string_views(order@)));
                    assert(dependency_graph(table@) == dependency_table(old(self).registered(), nested_views(dependencies@)));
                }
                self.load_order = order;
                Ok(())
            },
            Err(e) => Err(e),
        }
    }

    /// Mark the registry initialized, once every plugin has been initialized
    /// in load order
    pub fn complete_initialization(&mut self)
        requires
            old(self).wf(),
        ensures
            final(self).wf(),
            final(self).registered() == old(self).registered(),
            final(self).spec_load_order() == old(self).spec_load_order(),
            final(self).spec_initialized(),
    {
        self.initialized = true;
    }

    /// Decide whether the plugins may be updated: refused before
    /// initialization; otherwise they are to be updated in load order.
    pub fn begin_update(&self) -> (r: Result<(), String>)
        ensures
            match r {
                Ok(()) => self.spec_initialized(),
                Err(m) => !self.spec_initialized() && m@ == not_initialized_message(),
            },
    {
        if !self.initialized {
            return Err(String::from_str("Registry not initialized"));
        }
        Ok(())
    }

    /// The order in which plugins are shut down: the reverse of the load
    /// order when initialized, and none otherwise.
    pub fn shutdown_order(&self) -> (r: Vec<String>)
        ensures
            self.spec_initialized() ==> string_views(r@) == self.spec_load_order().reverse(),
            !self.spec_initialized() ==> r@.len() == 0,
    {
        let mut r: Vec<String> = Vec::new();
        if !self.initialized {
            return r;
        }
        let n = self.load_order.len();
        let mut i: usize = n;
        while i > 0
            invariant
                n == self.load_order@.len(),
                i <= n,
                string_views(r@) == self.spec_load_order().reverse().subrange(0, (n - i) as int),
            decreases i,
        {
            i = i - 1;
            let ghost before = r@;
            let item = self.load_order[i].clone();
            r.push(item);
            proof {
                assert(item@ == self.spec_load_order()[i as int]);
                assert(self.spec_load_order().reverse()[(n - 1 - i) as int] == self.spec_load_order()[i as int]);
                assert(string_views(r@) =~= string_views(before).push(item@));
                assert(string_views(r@) =~= self.spec_load_order().reverse().subrange(0, (n - i) as int));
            }
        }
        proof {
            assert(string_views(r@) =~= self.spec_load_order().reverse());
        }
        r
    }

    /// Mark the registry shut down, once every plugin has been shut down
    pub fn complete_shutdown(&mut self)
        requires
            old(self).wf(),
        ensures
            final(self).wf(),
            final(self).registered() == old(self).registered(),
            final(self).spec_load_order() == old(self).spec_load_order(),
            !final(self).spec_initialized(),
    {
        self.initialized = false;
    }

    /// The message reporting that `stage` (initialize, update, shutdown)
    /// failed for plugin `name` with `error`.
    pub fn hook_failure(stage: &str, name: &str, error: &str) -> (m: String)
        ensures
            m@ == hook_failure_message(stage@, name@, error@),
    {
        let mut m = join3("Failed to ", stage, " plugin '");
        m.append(name);
        m.append("': ");
        m.append(error);
        m
    }

    /// Get the number of registered plugins
    pub fn plugin_count(&self) -> (n: usize)
        ensures
            n == self.registered().len(),
    {
        self.names.len()
    }

    /// Check if the registry is initialized
    pub fn is_initialized(&self) -> (b: bool)
        ensures
            b == self.spec_initialized(),
    {
        self.initialized
    }

    /// Get the plugin load order
    pub fn load_order(&self) -> (r: &[String])
        ensures
            string_views(r@) == self.spec_load_order(),
    {
        self.load_order.as_slice()
    }

    /// The registered plugin names, in registration order
    pub fn registered_names(&self) -> (r: &[String])
        ensures
            string_views(r@) == self.registered(),
    {
        self.names.as_slice()
    }
}

/// The names of nested lists of strings.
pub open spec fn nested_views(v: Seq<Vec<String>>) -> Seq<Seq<Seq<char>>> {
    v.map_values(|d: Vec<String>| string_views(d@))
}

/// The dependency table pairing each name with its dependencies.
pub open spec fn dependency_table(names: Seq<Seq<char>>, deps: Seq<Seq<Seq<char>>>) -> Seq<(Seq<char>, Seq<Seq<char>>)> {
    Seq::new(names.len(), |i: int| (names[i], deps[i]))
}


impl Default for PluginRegistry {
    fn default() -> (r: Self)
        ensures
            r.wf(),
            r.registered() == Seq::<Seq<char>>::empty(),
            r.spec_load_order() == Seq::<Seq<char>>::empty(),
            !r.spec_initialized(),
    {
        Self::new()
    }
}

/// Compatibility ignores patch versions: a plugin version and the same
/// version with another patch number are compatible with the same engine
/// versions, and likewise on the engine's side.
pub proof fn law_patch_versions_ignored(
    plugin: (u64, u64, u64),
    engine: (u64, u64, u64),
    plugin_patch: u64,
    engine_patch: u64,
)
    ensures
        versions_compatible(Some(plugin), Some(engine)) == versions_compatible(
            Some((plugin.0, plugin.1, plugin_patch)),
            Some((engine.0, engine.1, engine_patch)),
        ),
{
}

/// Every version that parses is compatible with itself, and a version that
/// does not parse is compatible with nothing.
pub proof fn law_version_compatibility_reflexive(v: Option<(u64, u64, u64)>, other: Option<(u64, u64, u64)>)
    ensures
        v is Some ==> versions_compatible(v, v),
        v is None ==> !versions_compatible(v, other) && !versions_compatible(other, v),
{
}

/// Under major version 1 or later, a plugin built against an older minor
/// version is compatible with a newer engine, not the other way round;
/// under major version 0 only equal minor versions are compatible.
pub proof fn law_minor_versions(major: u64, minor_a: u64, minor_b: u64, patch: u64)
    requires
        minor_a < minor_b,
    ensures
        major >= 1 ==> versions_compatible(Some((major, minor_a, patch)), Some((major, minor_b, patch))),
        !versions_compatible(Some((major, minor_b, patch)), Some((major, minor_a, patch))),
        major == 0 ==> !versions_compatible(Some((major, minor_a, patch)), Some((major, minor_b, patch))),
{
}


/// The position of `x` in the reverse of a duplicate-free sequence that
/// contains it mirrors its position in the sequence.
proof fn lemma_reverse_index_of<A>(s: Seq<A>, x: A)
    requires
        s.no_duplicates(),
        s.contains(x),
    ensures
        s.reverse().no_duplicates(),
        0 <= s.index_of(x) < s.len(),
        s.reverse().index_of(x) == s.len() - 1 - s.index_of(x),
{
    let n = s.len() as int;
    let r = s.reverse();
    assert forall|a: int, b: int| 0 <= a < r.len() && 0 <= b < r.len() && a != b implies r[a] != r[b] by {
        assert(r[a] == s[n - 1 - a]);
        assert(r[b] == s[n - 1 - b]);
    }
    let ix = s.index_of(x);
    assert(0 <= ix < n && s[ix] == x);
    assert(r[n - 1 - ix] == x);
    assert(r.contains(x));
    let j = r.index_of(x);
    assert(0 <= j < n && r[j] == x);
}

/// Shutting down in the reverse of a dependency order shuts every plugin
/// down before each plugin it depends on.
pub proof fn law_shutdown_before_dependencies(g: Seq<(Seq<char>, Seq<Seq<char>>)>, s: Seq<Seq<char>>)
    requires
        is_dependency_order(g, s),
    ensures
        s.reverse().no_duplicates(),
        forall|i: int, p: int|
            0 <= i < g.len() && 0 <= p < g[i].1.len() ==> s.reverse().index_of(g[i].0) < s.reverse().index_of(
                #[trigger] g[i].1[p],
            ),
{
    if g.len() > 0 {
        assert(s.contains(g[0].0));
        lemma_reverse_index_of(s, g[0].0);
    } else {
        assert forall|a: int, b: int|
            0 <= a < s.reverse().len() && 0 <= b < s.reverse().len() && a != b implies s.reverse()[a]
                != s.reverse()[b] by {
            assert(s.reverse()[a] == s[s.len() - 1 - a]);
            assert(s.reverse()[b] == s[s.len() - 1 - b]);
        }
    }
    assert forall|i: int, p: int| 0 <= i < g.len() && 0 <= p < g[i].1.len() implies s.reverse().index_of(
        g[i].0,
    ) < s.reverse().index_of(#[trigger] g[i].1[p]) by {
        assert(s.contains(g[i].0));
        lemma_reverse_index_of(s, g[i].0);
        lemma_reverse_index_of(s, g[i].1[p]);
    }
}


/// No name is registered twice: in a well-formed registry the registered
/// names are distinct.
pub proof fn law_registered_names_distinct(r: PluginRegistry)
    requires
        r.wf(),
    ensures
        r.registered().no_duplicates(),
{
    r.lemma_registered_distinct();
}


/// Major versions must match: two parsed versions whose major numbers
/// differ are never compatible, whichever is newer.
pub proof fn law_major_versions_must_match(plugin: (u64, u64, u64), engine: (u64, u64, u64))
    ensures
        versions_compatible(Some(plugin), Some(engine)) ==> plugin.0 == engine.0,
        plugin.0 != engine.0 ==> !versions_compatible(Some(plugin), Some(engine)),
{
}

} // verus!
