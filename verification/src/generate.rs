//! The vertex-cover-biased sampler: draws a cover set and a terminal set,
//! then rejection-samples edge sets biased to touch the cover until all
//! terminals are mutually connected.
use vstd::prelude::*;
use crate::graph::{
    spec_connected, links_in, pair_links, graph_node_count, graph_edge_seq, graph_new,
    graph_add_node, graph_add_edge, graph_has_path, lemma_connected_refl, lemma_connected_step,
};
use crate::rng::{rand_ratio, rand_sample_indices};
use crate::{Edge, SteinerInstance, SteinError, clone_vertices};

verus! {

/// The 0-based endpoint pairs of an edge list.
pub open spec fn inst_pairs(es: Seq<Edge>) -> Seq<(usize, usize)> {
    es.map_values(|e: Edge| (((e.from - 1) as usize, (e.to - 1) as usize)))
}

/// Inputs on which the sampler is certain to accept its first attempt: full
/// edge density with a non-empty cover set.
pub open spec fn full_density(p_num: u32, p_den: u32, vc: usize, max_attempts: usize) -> bool {
    p_num == p_den && vc >= 1 && max_attempts >= 1
}

/// Draws a uniformly random subset of `size` distinct vertices out of
/// `1..=num_vertices`; fails if and only if the subset cannot exist.
pub fn generate_vertex_subset(num_vertices: usize, size: usize) -> (r: Result<
    Vec<usize>,
    SteinError,
>)
    ensures
        r is Ok <==> size <= num_vertices,
        r is Err ==> r == Err::<Vec<usize>, SteinError>(SteinError::InvalidSubsetRequest),
        match r {
            Ok(v) => {
                &&& v@.len() == size
                &&& forall|i: int| 0 <= i < v@.len() ==> 1 <= #[trigger] v@[i] <= num_vertices
                &&& forall|i: int, j: int| 0 <= i < j < v@.len() ==> v@[i] != v@[j]
            },
            Err(_) => true,
        },
{
    if size > num_vertices {
        return Err(SteinError::InvalidSubsetRequest);
    }
    let drawn = rand_sample_indices(num_vertices, size);
    let mut shifted: Vec<usize> = Vec::new();
    let mut i: usize = 0;
    while i < drawn.len()
        invariant
            drawn@.len() == size,
            forall|k: int| 0 <= k < drawn@.len() ==> #[trigger] drawn@[k] < num_vertices,
            forall|k: int, l: int| 0 <= k < l < drawn@.len() ==> drawn@[k] != drawn@[l],
            i <= size,
            shifted@.len() == i,
            forall|k: int| 0 <= k < i ==> #[trigger] shifted@[k] == drawn@[k] + 1,
        decreases drawn@.len() - i,
    {
        shifted.push(drawn[i] + 1);
        i = i + 1;
    }
    proof {
        assert forall|k: int, l: int| 0 <= k < l < shifted@.len() implies shifted@[k]
            != shifted@[l] by {
            assert(drawn@[k] != drawn@[l]);
        }
    }
    Ok(shifted)
}

/// From full density every terminal pair is joined through the cover.
proof fn lemma_full_density_connected(
    pairs: Seq<(usize, usize)>,
    n: usize,
    cover: Seq<usize>,
    t0: usize,
    t: usize,
)
    requires
        forall|a: usize, b: usize|
            1 <= a < b <= n && (cover.contains(a) || cover.contains(b)) ==> #[trigger] links_in(
                pairs,
                (a - 1) as usize,
                (b - 1) as usize,
            ),
        cover.len() > 0,
        forall|i: int| 0 <= i < cover.len() ==> 1 <= #[trigger] cover[i] <= n,
        1 <= t0 <= n,
        1 <= t <= n,
    ensures
        spec_connected(pairs, (t0 - 1) as usize, (t - 1) as usize),
{
    let c = cover[0];
    assert(cover.contains(c));
    if t0 == t {
        lemma_connected_refl(pairs, (t0 - 1) as usize);
    } else if c == t0 || c == t {
        let a: usize = if t0 < t {
            t0
        } else {
            t
        };
        let b: usize = if t0 < t {
            t
        } else {
            t0
        };
        assert(links_in(pairs, (a - 1) as usize, (b - 1) as usize));
        let k = choose|k: int|
            0 <= k < pairs.len() && pair_links(pairs[k], (a - 1) as usize, (b - 1) as usize);
        assert(pair_links(pairs[k], (t0 - 1) as usize, (t - 1) as usize));
        assert(links_in(pairs, (t0 - 1) as usize, (t - 1) as usize));
        lemma_connected_refl(pairs, (t - 1) as usize);
        lemma_connected_step(pairs, (t0 - 1) as usize, (t - 1) as usize, (t - 1) as usize);
    } else {
        let a0: usize = if t0 < c {
            t0
        } else {
            c
        };
        let b0: usize = if t0 < c {
            c
        } else {
            t0
        };
        assert(links_in(pairs, (a0 - 1) as usize, (b0 - 1) as usize));
        let k0 = choose|k: int|
            0 <= k < pairs.len() && pair_links(pairs[k], (a0 - 1) as usize, (b0 - 1) as usize);
        assert(pair_links(pairs[k0], (t0 - 1) as usize, (c - 1) as usize));
        assert(links_in(pairs, (t0 - 1) as usize, (c - 1) as usize));
        let a1: usize = if c < t {
            c
        } else {
            t
        };
        let b1: usize = if c < t {
            t
        } else {
            c
        };
        assert(links_in(pairs, (a1 - 1) as usize, (b1 - 1) as usize));
        let k1 = choose|k: int|
            0 <= k < pairs.len() && pair_links(pairs[k], (a1 - 1) as usize, (b1 - 1) as usize);
        assert(pair_links(pairs[k1], (c - 1) as usize, (t - 1) as usize));
        assert(links_in(pairs, (c - 1) as usize, (t - 1) as usize));
        lemma_connected_refl(pairs, (t - 1) as usize);
        lemma_connected_step(pairs, (c - 1) as usize, (t - 1) as usize, (t - 1) as usize);
        lemma_connected_step(pairs, (t0 - 1) as usize, (c - 1) as usize, (t - 1) as usize);
    }
}

/// In a generated instance every terminal vertex is reachable from every
/// other terminal vertex: the sampler guarantees a path from the first
/// terminal to each of the others, and undirected connectivity is symmetric
/// and transitive.
pub proof fn lemma_terminals_mutually_reachable(pairs: Seq<(usize, usize)>, terminals: Seq<usize>)
    requires
        terminals.len() > 0,
        forall|i: int| 0 <= i < terminals.len() ==> 1 <= #[trigger] terminals[i],
        forall|k: int|
            0 <= k < terminals.len() ==> spec_connected(
                pairs,
                (terminals[0] - 1) as usize,
                (#[trigger] terminals[k] - 1) as usize,
            ),
    ensures
        forall|i: int, j: int|
            0 <= i < terminals.len() && 0 <= j < terminals.len() ==> #[trigger] spec_connected(
                pairs,
                (terminals[i] - 1) as usize,
                (terminals[j] - 1) as usize,
            ),
{
    let hub = (terminals[0] - 1) as usize;
    let vs = terminals.map_values(|t: usize| (t - 1) as usize);
    assert forall|k: int| 0 <= k < vs.len() implies spec_connected(pairs, hub, #[trigger] vs[k]) by {
        assert(vs[k] == (terminals[k] - 1) as usize);
    }
    crate::graph::lemma_all_connected_through_hub(pairs, hub, vs);
    assert forall|i: int, j: int|
        0 <= i < terminals.len() && 0 <= j < terminals.len() implies #[trigger] spec_connected(
        pairs,
        (terminals[i] - 1) as usize,
        (terminals[j] - 1) as usize,
    ) by {
        assert(vs[i] == (terminals[i] - 1) as usize);
        assert(vs[j] == (terminals[j] - 1) as usize);
        assert(spec_connected(pairs, vs[i], vs[j]));
    }
}

/// Generates a random instance on `num_vertices` vertices whose edges all
/// touch a planted cover set of exactly `vc` vertices, resampling the edge
/// set until every terminal is reachable from the first one, and failing with
/// a timeout once `max_attempts` samples were rejected.
///
/// Each vertex pair with an endpoint in the cover receives an edge of cost
/// one with probability `p_num / p_den`.
pub fn generate_random_with_fixed_vc(
    num_vertices: usize,
    num_terminals: usize,
    vc: usize,
    p_num: u32,
    p_den: u32,
    max_attempts: usize,
) -> (r: Result<(SteinerInstance, Vec<usize>), SteinError>)
    requires
        p_den > 0,
        p_num <= p_den,
        num_vertices < 65536,
    ensures
        (num_terminals > num_vertices || vc > num_vertices) <==> (r is Err && r->Err_0
            == SteinError::InvalidSubsetRequest),
        r is Err ==> (r->Err_0 == SteinError::InvalidSubsetRequest || r->Err_0
            == SteinError::GenerationTimeout),
        num_terminals <= num_vertices && vc <= num_vertices && full_density(
            p_num,
            p_den,
            vc,
            max_attempts,
        ) ==> r is Ok,
        match r {
            Ok((inst, cover)) => {
                &&& cover@.len() == vc
                &&& (forall|i: int| 0 <= i < cover@.len() ==> 1 <= #[trigger] cover@[i]
                    <= num_vertices)
                &&& (forall|i: int, j: int| 0 <= i < j < cover@.len() ==> cover@[i] != cover@[j])
                &&& inst@.num_nodes == num_vertices
                &&& inst@.num_edges == inst@.edges.len()
                &&& inst@.num_terminals == inst@.terminals.len()
                &&& inst@.terminals.len() == num_terminals
                &&& inst@.num_arcs == 0
                &&& inst@.num_obstacles == 0
                &&& inst@.arcs.len() == 0
                &&& (forall|i: int| 0 <= i < inst@.terminals.len() ==> 1 <= #[trigger] inst@.terminals[i] <= num_vertices)
                &&& (forall|i: int, j: int| 0 <= i < j < inst@.terminals.len() ==> inst@.terminals[i] != inst@.terminals[j])
                &&& (forall|i: int| 0 <= i < inst@.edges.len() ==> {
                    &&& 1 <= (#[trigger] inst@.edges[i]).from
                    &&& inst@.edges[i].from < inst@.edges[i].to
                    &&& inst@.edges[i].to <= num_vertices
                    &&& inst@.edges[i].cost == 1
                    &&& (cover@.contains(inst@.edges[i].from) || cover@.contains(
                        inst@.edges[i].to,
                    ))
                })
                &&& (forall|i: int, j: int| 0 <= i < j < inst@.edges.len() ==> !(inst@.edges[i].from
                    == inst@.edges[j].from && inst@.edges[i].to == inst@.edges[j].to))
                &&& (inst@.terminals.len() > 0 ==> forall|k: int|
                    0 <= k < inst@.terminals.len() ==> spec_connected(
                        inst_pairs(inst@.edges),
                        (inst@.terminals[0] - 1) as usize,
                        (#[trigger] inst@.terminals[k] - 1) as usize,
                    ))
            },
            Err(_) => true,
        },
{
    let n = num_vertices;
    let cover = match generate_vertex_subset(n, vc) {
        Ok(c) => c,
        Err(e) => {
            return Err(e);
        },
    };
    let terminals = match generate_vertex_subset(n, num_terminals) {
        Ok(t) => t,
        Err(e) => {
            return Err(e);
        },
    };
    let mut is_in_cover: Vec<bool> = Vec::new();
    let mut k: usize = 0;
    while k < n
        invariant
            k <= n,
            is_in_cover@.len() == k,
            forall|x: int| 0 <= x < k ==> !(#[trigger] is_in_cover@[x]),
        decreases n - k,
    {
        is_in_cover.push(false);
        k = k + 1;
    }
    let mut c: usize = 0;
    while c < cover.len()
        invariant
            cover@.len() == vc,
            vc <= n,
            forall|i: int| 0 <= i < cover@.len() ==> 1 <= #[trigger] cover@[i] <= n,
            c <= cover@.len(),
            is_in_cover@.len() == n,
            forall|x: int|
                0 <= x < n ==> (#[trigger] is_in_cover@[x] == cover@.take(c as int).contains(
                    (x + 1) as usize,
                )),
        decreases cover@.len() - c,
    {
        let ghost before = is_in_cover@;
        let v = cover[c];
        is_in_cover.set(v - 1, true);
        proof {
            assert(cover@.take(c + 1).drop_last() =~= cover@.take(c as int));
            assert(cover@.take(c + 1).last() == cover@[c as int]);
            assert forall|x: int| 0 <= x < n implies (#[trigger] is_in_cover@[x] == cover@.take(
                c + 1,
            ).contains((x + 1) as usize)) by {
                let tk = cover@.take(c + 1);
                if x == v - 1 {
                    assert(tk.last() == (x + 1) as usize);
                    assert(tk.contains((x + 1) as usize));
                } else {
                    if tk.contains((x + 1) as usize) {
                        let w = choose|w: int| 0 <= w < tk.len() && tk[w] == (x + 1) as usize;
                        assert(w < c + 1);
                        assert(w != c);
                        assert(cover@.take(c as int)[w] == (x + 1) as usize);
                        assert(cover@.take(c as int).contains((x + 1) as usize));
                    }
                    if cover@.take(c as int).contains((x + 1) as usize) {
                        let w = choose|w: int|
                            0 <= w < c && cover@.take(c as int)[w] == (x + 1) as usize;
                        assert(tk[w] == (x + 1) as usize);
                        assert(tk.contains((x + 1) as usize));
                    }
                }
            }
        }
        c = c + 1;
    }
    proof {
        assert(cover@.take(vc as int) =~= cover@);
    }
    let mut attempt: usize = 0;
    while attempt < max_attempts
        invariant
            p_den > 0,
            p_num <= p_den,
            n == num_vertices,
            n < 65536,
            cover@.len() == vc,
            vc <= n,
            num_terminals <= n,
            forall|i: int| 0 <= i < cover@.len() ==> 1 <= #[trigger] cover@[i] <= n,
            forall|i: int, j: int| 0 <= i < j < cover@.len() ==> cover@[i] != cover@[j],
            terminals@.len() == num_terminals,
            forall|i: int| 0 <= i < terminals@.len() ==> 1 <= #[trigger] terminals@[i] <= n,
            forall|i: int, j: int| 0 <= i < j < terminals@.len() ==> terminals@[i] != terminals@[j],
            is_in_cover@.len() == n,
            forall|x: int|
                0 <= x < n ==> (#[trigger] is_in_cover@[x] == cover@.contains((x + 1) as usize)),
            full_density(p_num, p_den, vc, max_attempts) ==> attempt == 0,
        decreases max_attempts - attempt,
    {
        // One fresh biased sample of the edge set.
        let mut edges: Vec<Edge> = Vec::new();
        let mut i: usize = 1;
        while i <= n
            invariant
                p_den > 0,
                p_num <= p_den,
                n < 65536,
                is_in_cover@.len() == n,
                forall|x: int|
                    0 <= x < n ==> (#[trigger] is_in_cover@[x] == cover@.contains((x + 1) as usize)),
                1 <= i <= n + 1,
                edges@.len() <= (i - 1) * n,
                forall|e: int| 0 <= e < edges@.len() ==> {
                    &&& 1 <= (#[trigger] edges@[e]).from
                    &&& edges@[e].from < edges@[e].to
                    &&& edges@[e].to <= n
                    &&& edges@[e].cost == 1
                    &&& (cover@.contains(edges@[e].from) || cover@.contains(edges@[e].to))
                    &&& edges@[e].from < i
                },
                forall|e: int, f: int| 0 <= e < f < edges@.len() ==> !(edges@[e].from
                    == edges@[f].from && edges@[e].to == edges@[f].to),
                p_num == p_den ==> forall|a: usize, b: usize|
                    1 <= a < b <= n && a < i && (cover@.contains(a) || cover@.contains(b))
                        ==> #[trigger] crate::has_endpoints(edges@, a, b),
            decreases n + 1 - i,
        {
            let mut j: usize = i + 1;
            while j <= n
                invariant
                    p_den > 0,
                    p_num <= p_den,
                    n < 65536,
                    is_in_cover@.len() == n,
                    forall|x: int|
                        0 <= x < n ==> (#[trigger] is_in_cover@[x] == cover@.contains(
                            (x + 1) as usize,
                        )),
                    1 <= i <= n,
                    i + 1 <= j <= n + 1,
                    edges@.len() <= (i - 1) * n + (j - i - 1),
                    forall|e: int| 0 <= e < edges@.len() ==> {
                        &&& 1 <= (#[trigger] edges@[e]).from
                        &&& edges@[e].from < edges@[e].to
                        &&& edges@[e].to <= n
                        &&& edges@[e].cost == 1
                        &&& (cover@.contains(edges@[e].from) || cover@.contains(edges@[e].to))
                        &&& (edges@[e].from < i || (edges@[e].from == i && edges@[e].to < j))
                    },
                    forall|e: int, f: int| 0 <= e < f < edges@.len() ==> !(edges@[e].from
                        == edges@[f].from && edges@[e].to == edges@[f].to),
                    p_num == p_den ==> forall|a: usize, b: usize|
                        1 <= a < b <= n && (a < i || (a == i && b < j)) && (cover@.contains(a)
                            || cover@.contains(b)) ==> #[trigger] crate::has_endpoints(
                            edges@,
                            a,
                            b,
                        ),
                decreases n + 1 - j,
            {
                if is_in_cover[i - 1] || is_in_cover[j - 1] {
                    if rand_ratio(p_num, p_den) {
                        let ghost before = edges@;
                        edges.push(Edge { from: i, to: j, cost: 1 });
                        proof {
                            assert forall|a: usize, b: usize|
                                p_num == p_den && 1 <= a < b <= n && (a < i || (a == i && b < j + 1))
                                    && (cover@.contains(a) || cover@.contains(b))
                                        implies #[trigger] crate::has_endpoints(
                                edges@,
                                a,
                                b,
                            ) by {
                                if a == i && b == j {
                                    assert(edges@[edges@.len() - 1].links(a, b));
                                } else {
                                    assert(crate::has_endpoints(before, a, b));
                                    let w = choose|w: int|
                                        0 <= w < before.len() && before[w].links(a, b);
                                    assert(edges@[w].links(a, b));
                                }
                            }
                        }
                    } else {
                        proof {
                            assert(p_num != p_den);
                        }
                    }
                }
                j = j + 1;
            }
            proof {
                assert((i - 1) * n + n == i * n) by (nonlinear_arith);
                assert(edges@.len() <= (i - 1) * n + (n - i));
            }
            i = i + 1;
        }
        proof {
            assert(edges@.len() <= n * n);
            assert(n * n < 0xFFFF_FFFEusize) by (nonlinear_arith)
                requires
                    n < 65536,
            ;
        }
        // Build the graph and test terminal connectivity.
        let mut g = graph_new(n, edges.len());
        let mut a: usize = 0;
        while a < n
            invariant
                n < 65536,
                a <= n,
                graph_node_count(g) == a,
                graph_edge_seq(g) == Seq::<(usize, usize)>::empty(),
            decreases n - a,
        {
            graph_add_node(&mut g);
            a = a + 1;
        }
        let mut b: usize = 0;
        while b < edges.len()
            invariant
                n < 65536,
                edges@.len() <= n * n,
                n * n < 0xFFFF_FFFEusize,
                forall|e: int| 0 <= e < edges@.len() ==> {
                    &&& 1 <= (#[trigger] edges@[e]).from
                    &&& edges@[e].from < edges@[e].to
                    &&& edges@[e].to <= n
                },
                b <= edges@.len(),
                graph_node_count(g) == n,
                graph_edge_seq(g) == inst_pairs(edges@.take(b as int)),
            decreases edges@.len() - b,
        {
            let e = edges[b];
            graph_add_edge(&mut g, e.from - 1, e.to - 1);
            proof {
                assert(inst_pairs(edges@.take(b + 1)) =~= inst_pairs(edges@.take(b as int)).push(
                    (((edges@[b as int].from - 1) as usize, (edges@[b as int].to - 1) as usize)),
                ));
            }
            b = b + 1;
        }
        proof {
            assert(edges@.take(edges@.len() as int) =~= edges@);
        }
        if terminals.len() == 0 {
            let inst = SteinerInstance::new(n, edges, clone_vertices(&terminals));
            return Ok((inst, cover));
        }
        let t0 = terminals[0];
        let mut ok = true;
        let mut t: usize = 0;
        while t < terminals.len()
            invariant_except_break
                ok,
            invariant
                terminals@.len() > 0,
                forall|x: int| 0 <= x < terminals@.len() ==> 1 <= #[trigger] terminals@[x] <= n,
                t0 == terminals@[0],
                t <= terminals@.len(),
                graph_node_count(g) == n,
                graph_edge_seq(g) == inst_pairs(edges@),
                forall|x: int|
                    0 <= x < t ==> spec_connected(
                        inst_pairs(edges@),
                        (t0 - 1) as usize,
                        (#[trigger] terminals@[x] - 1) as usize,
                    ),
            ensures
                t <= terminals@.len(),
                ok ==> t == terminals@.len(),
                ok ==> forall|x: int|
                    0 <= x < terminals@.len() ==> spec_connected(
                        inst_pairs(edges@),
                        (t0 - 1) as usize,
                        (#[trigger] terminals@[x] - 1) as usize,
                    ),
                !ok ==> exists|x: int|
                    0 <= x < terminals@.len() && !spec_connected(
                        inst_pairs(edges@),
                        (t0 - 1) as usize,
                        (#[trigger] terminals@[x] - 1) as usize,
                    ),
            decreases terminals@.len() - t,
        {
            let reached = graph_has_path(&g, t0 - 1, terminals[t] - 1);
            if !reached {
                ok = false;
                break ;
            }
            t = t + 1;
        }
        if ok {
            let inst = SteinerInstance::new(n, edges, clone_vertices(&terminals));
            return Ok((inst, cover));
        }
        proof {
            if p_num == p_den && vc >= 1 {
                let x = choose|x: int|
                    0 <= x < terminals@.len() && !spec_connected(
                        inst_pairs(edges@),
                        (t0 - 1) as usize,
                        (terminals@[x] - 1) as usize,
                    );
                assert forall|aa: usize, bb: usize|
                    1 <= aa < bb <= n && (cover@.contains(aa) || cover@.contains(bb))
                        implies #[trigger] links_in(
                    inst_pairs(edges@),
                    (aa - 1) as usize,
                    (bb - 1) as usize,
                ) by {
                    assert(crate::has_endpoints(edges@, aa, bb));
                    let w = choose|w: int| 0 <= w < edges@.len() && edges@[w].links(aa, bb);
                    assert(inst_pairs(edges@)[w] == (((edges@[w].from - 1) as usize, (edges@[w].to
                        - 1) as usize)));
                    assert(pair_links(inst_pairs(edges@)[w], (aa - 1) as usize, (bb - 1) as usize));
                }
                lemma_full_density_connected(
                    inst_pairs(edges@),
                    n,
                    cover@,
                    t0,
                    terminals@[x],
                );
                assert(false);
            }
        }
        attempt = attempt + 1;
    }
    Err(SteinError::GenerationTimeout)
}

} // verus!
