use vstd::prelude::*;
use crate::mutation::{LogEntry, Mutation};
use crate::node::Node;
use crate::text::text_eq;
use crate::time::time_lt;

verus! {

/// Whether node identifiers strictly increase along the sequence.
pub open spec fn ids_increasing(s: Seq<Node>) -> bool {
    forall|i: int, j: int| 0 <= i < j < s.len() ==> s[i].id.0 < s[j].id.0
}

/// The nodes of a sequence keyed by identifier.
pub open spec fn node_map(s: Seq<Node>) -> Map<u128, Node> {
    Map::new(
        |k: u128| exists|i: int| 0 <= i < s.len() && s[i].id.0 == k,
        |k: u128| s[choose|i: int| 0 <= i < s.len() && s[i].id.0 == k],
    )
}

/// The graph state after one mutation: a created or updated node is stored
/// under its identifier (replacing what was there), a deleted identifier is
/// dropped, and edge mutations leave the nodes as they are.
pub open spec fn apply_mutation(state: Map<u128, Node>, m: Mutation) -> Map<u128, Node> {
    match m {
        Mutation::CreateNode { node } => state.insert(node.id.0, node),
        Mutation::UpdateNode { node } => state.insert(node.id.0, node),
        Mutation::DeleteNode { id } => state.remove(id.0),
        _ => state,
    }
}

/// The graph state that replaying mutations in order yields, from no nodes.
pub open spec fn replay_mutations(ms: Seq<Mutation>) -> Map<u128, Node>
    decreases ms.len(),
{
    if ms.len() == 0 {
        Map::empty()
    } else {
        apply_mutation(replay_mutations(ms.drop_last()), ms.last())
    }
}

/// The mutations of log entries, in order.
pub open spec fn entry_mutations(entries: Seq<LogEntry>) -> Seq<Mutation> {
    entries.map_values(|e: LogEntry| e.mutation)
}

/// Whether a node passes a supertag filter (no filter passes every node).
pub open spec fn passes_filter(n: Node, filter: Option<Seq<char>>) -> bool {
    match filter {
        None => true,
        Some(t) => n.supertag matches Some(s) && s@ == t,
    }
}

/// The text of an optional filter.
pub open spec fn filter_text(filter: Option<&str>) -> Option<Seq<char>> {
    match filter {
        Some(t) => Some(t@),
        None => None,
    }
}

/// Whether `a` is listed before `b`: newer creation time first, and for
/// equal times the smaller identifier first.
pub open spec fn listed_before(a: Node, b: Node) -> bool {
    time_lt(b.created_at, a.created_at) || (a.created_at == b.created_at && a.id.0 < b.id.0)
}

/// Listing goes by creation time alone, newest first: a node created later
/// comes before one created earlier, nodes created at the same instant come
/// in identifier order, and no node comes before one created after it. The
/// order looks at nothing else of a node (not when it was last modified).
pub proof fn lemma_listing_order(a: Node, b: Node, a2: Node, b2: Node)
    ensures
        (a.created_at.secs > b.created_at.secs || (a.created_at.secs == b.created_at.secs
            && a.created_at.nanos > b.created_at.nanos)) ==> listed_before(a, b),
        a.created_at == b.created_at && a.id.0 < b.id.0 ==> listed_before(a, b),
        listed_before(a, b) ==> a.created_at.secs > b.created_at.secs || (a.created_at.secs == b.created_at.secs
            && a.created_at.nanos >= b.created_at.nanos),
        a2.created_at == a.created_at && a2.id == a.id && b2.created_at == b.created_at && b2.id == b.id
            ==> (listed_before(a2, b2) <==> listed_before(a, b)),
{
}

/// Whether a mutation writes or deletes the node with identifier `k`.
pub open spec fn touches(m: Mutation, k: u128) -> bool {
    match m {
        Mutation::CreateNode { node } => node.id.0 == k,
        Mutation::UpdateNode { node } => node.id.0 == k,
        Mutation::DeleteNode { id } => id.0 == k,
        _ => false,
    }
}

/// The position of the last mutation that touches the node `k`, or -1.
pub open spec fn last_touch(ms: Seq<Mutation>, k: u128) -> int
    decreases ms.len(),
{
    if ms.len() == 0 {
        -1
    } else if touches(ms.last(), k) {
        ms.len() - 1
    } else {
        last_touch(ms.drop_last(), k)
    }
}

/// Replaying a log, the node stored under an identifier is the one that the
/// last create or update of that identifier wrote, unless a later delete
/// removed it; an identifier that no mutation touches holds no node. Edge
/// mutations and mutations of other nodes do not matter.
pub proof fn lemma_replay_last_write(ms: Seq<Mutation>, k: u128)
    ensures
        last_touch(ms, k) == -1 ==> !replay_mutations(ms).contains_key(k),
        last_touch(ms, k) == -1 || 0 <= last_touch(ms, k) < ms.len(),
        ({
            let t = last_touch(ms, k);
            match ms[t] {
                Mutation::CreateNode { node } => replay_mutations(ms).contains_key(k) && replay_mutations(ms)[k] == node,
                Mutation::UpdateNode { node } => replay_mutations(ms).contains_key(k) && replay_mutations(ms)[k] == node,
                _ => !replay_mutations(ms).contains_key(k),
            }
        }) || last_touch(ms, k) == -1,
    decreases ms.len(),
{
    if ms.len() > 0 {
        lemma_replay_last_write(ms.drop_last(), k);
        let t = last_touch(ms, k);
        if !touches(ms.last(), k) {
            let p = ms.drop_last();
            if last_touch(p, k) >= 0 {
                assert(p[last_touch(p, k)] == ms[t]);
            }
        }
    }
}

proof fn lemma_node_map_at(s: Seq<Node>, i: int)
    requires
        ids_increasing(s),
        0 <= i < s.len(),
    ensures
        node_map(s).contains_key(s[i].id.0),
        node_map(s)[s[i].id.0] == s[i],
{
    let k = s[i].id.0;
    assert(node_map(s).dom().contains(k));
    let j = choose|j: int| 0 <= j < s.len() && s[j].id.0 == k;
    if j < i {
        assert(s[j].id.0 < s[i].id.0);
    } else if j > i {
        assert(s[i].id.0 < s[j].id.0);
    }
}

proof fn lemma_node_map_dom(s: Seq<Node>, k: u128)
    ensures
        node_map(s).contains_key(k) <==> exists|i: int| 0 <= i < s.len() && s[i].id.0 == k,
{
}

/// The identifier-keyed nodes of the index, kept in ascending identifier order.
#[derive(Debug)]
pub struct NodeIndex {
    nodes: Vec<Node>,
}

impl View for NodeIndex {
    type V = Map<u128, Node>;

    /// The nodes keyed by identifier.
    closed spec fn view(&self) -> Map<u128, Node> {
        node_map(self.nodes@)
    }
}

impl NodeIndex {
    #[verifier::type_invariant]
    closed spec fn inv(self) -> bool {
        ids_increasing(self.nodes@)
    }

    /// An index without nodes.
    pub fn new() -> (ix: Self)
        ensures
            ix@ == Map::<u128, Node>::empty(),
    {
        let ix = NodeIndex { nodes: Vec::new() };
        assert(ix@ =~= Map::<u128, Node>::empty());
        ix
    }

    /// The nodes in ascending identifier order.
    pub fn nodes(&self) -> (r: &Vec<Node>)
        ensures
            ids_increasing(r@),
            node_map(r@) == self@,
    {
        proof {
            use_type_invariant(self);
        }
        &self.nodes
    }

    /// The node with the given identifier, if present.
    pub fn get(&self, id: u128) -> (r: Option<&Node>)
        ensures
            match r {
                Some(n) => self@.contains_key(id) && self@[id] == *n,
                None => !self@.contains_key(id),
            },
    {
        proof {
            use_type_invariant(self);
        }
        let (i, found) = find(&self.nodes, id);
        if found {
            proof {
                lemma_node_map_at(self.nodes@, i as int);
            }
            Some(&self.nodes[i])
        } else {
            proof {
                lemma_absent(self.nodes@, id, i as int);
            }
            None
        }
    }

    /// Applies one mutation to the nodes.
    pub fn apply(&mut self, m: Mutation)
        ensures
            final(self)@ == apply_mutation(old(self)@, m),
    {
        proof {
            use_type_invariant(&*self);
        }
        let mut nodes: Vec<Node> = Vec::new();
        std::mem::swap(&mut nodes, &mut self.nodes);
        let ghost s = nodes@;
        match m {
            Mutation::CreateNode { node } => {
                upsert(&mut nodes, node);
            },
            Mutation::UpdateNode { node } => {
                upsert(&mut nodes, node);
            },
            Mutation::DeleteNode { id } => {
                let (i, found) = find(&nodes, id.0);
                if found {
                    proof {
                        lemma_map_of_remove(s, i as int);
                    }
                    nodes.remove(i);
                } else {
                    proof {
                        lemma_absent(s, id.0, i as int);
                        assert(node_map(s).remove(id.0) =~= node_map(s));
                    }
                }
            },
            _ => {},
        }
        self.nodes = nodes;
    }

    /// The index that replaying the entries' mutations in order builds.
    pub fn replay(entries: Vec<LogEntry>) -> (ix: NodeIndex)
        ensures
            ix@ == replay_mutations(entry_mutations(entries@)),
    {
        let mut ix = NodeIndex::new();
        let ghost all = entries@;
        let n = entries.len();
        let mut rest = entries;
        let mut i: usize = 0;
        while i < n
            invariant
                n == all.len(),
                i <= n,
                rest@ == all.skip(i as int),
                ix@ == replay_mutations(entry_mutations(all.take(i as int))),
            decreases n - i,
        {
            let e = rest.remove(0);
            proof {
                assert(e == all[i as int]);
                assert(entry_mutations(all.take(i + 1)).drop_last() =~= entry_mutations(all.take(i as int)));
                assert(entry_mutations(all.take(i + 1)).last() == e.mutation);
                assert(rest@ =~= all.skip(i + 1));
            }
            ix.apply(e.mutation);
            i = i + 1;
        }
        proof {
            assert(all.take(n as int) =~= all);
        }
        ix
    }

    /// Up to `limit` nodes passing the supertag filter, newest first (equal
    /// creation times by ascending identifier).
    pub fn list(&self, filter: Option<&str>, limit: usize) -> (r: Vec<&Node>)
        ensures
            r@.len() <= limit,
            forall|i: int| 0 <= i < r@.len() ==> self@.contains_key(#[trigger] r@[i].id.0) && self@[r@[i].id.0] == *r@[i]
                && passes_filter(*r@[i], filter_text(filter)),
            forall|i: int, j: int| 0 <= i < j < r@.len() ==> listed_before(*r@[i], *r@[j]),
            forall|i: int, j: int|
                0 <= i < j < r@.len() ==> r@[i].created_at.secs > r@[j].created_at.secs || (r@[i].created_at.secs
                    == r@[j].created_at.secs && r@[i].created_at.nanos >= r@[j].created_at.nanos),
            forall|k: u128|
                self@.contains_key(k) && passes_filter(self@[k], filter_text(filter)) && !(exists|i: int|
                    0 <= i < r@.len() && r@[i].id.0 == k) ==> r@.len() == limit && forall|i: int|
                    0 <= i < r@.len() ==> listed_before(*r@[i], self@[k]),
    {
        proof {
            use_type_invariant(self);
        }
        let nodes = &self.nodes;
        let cands = filter_positions(nodes, filter);
        let sel = select_first(nodes, &cands, limit);
        let ghost s = nodes@;
        let ghost cs = cands@;
        let mut r: Vec<&Node> = Vec::new();
        let m = sel.len();
        let mut a: usize = 0;
        while a < m
            invariant
                m == sel@.len(),
                s == nodes@,
                cs == cands@,
                a <= m,
                r@.len() == a,
                forall|b: int| 0 <= b < a ==> *#[trigger] r@[b] == cand_node(s, cs, sel@[b] as int),
                forall|b: int| 0 <= b < m ==> sel@[b] < cs.len(),
                forall|x: int| 0 <= x < cs.len() ==> cs[x] < s.len(),
            decreases m - a,
        {
            r.push(&nodes[cands[sel[a]]]);
            a = a + 1;
        }
        proof {
            let f = filter_text(filter);
            assert forall|i: int| 0 <= i < r@.len() implies self@.contains_key(#[trigger] r@[i].id.0) && self@[r@[i].id.0] == *r@[i]
                && passes_filter(*r@[i], f) by {
                lemma_node_map_at(s, cs[sel@[i] as int] as int);
            }
            assert forall|i: int, j: int| 0 <= i < j < r@.len() implies listed_before(*r@[i], *r@[j]) by {
                assert(*r@[i] == cand_node(s, cs, sel@[i] as int));
                assert(*r@[j] == cand_node(s, cs, sel@[j] as int));
            }
            assert forall|k: u128|
                self@.contains_key(k) && passes_filter(self@[k], f) && !(exists|i: int|
                    0 <= i < r@.len() && r@[i].id.0 == k) implies r@.len() == limit && forall|i: int|
                    0 <= i < r@.len() ==> listed_before(*r@[i], self@[k]) by {
                lemma_node_map_dom(s, k);
                let b = choose|b: int| 0 <= b < s.len() && s[b].id.0 == k;
                lemma_node_map_at(s, b);
                let x = choose|x: int| 0 <= x < cs.len() && cs[x] == b;
                if exists|i: int| 0 <= i < sel@.len() && sel@[i] == x {
                    let i = choose|i: int| 0 <= i < sel@.len() && sel@[i] == x;
                    assert(r@[i].id.0 == k);
                }
                assert forall|i: int| 0 <= i < r@.len() implies listed_before(*r@[i], self@[k]) by {
                    assert(*r@[i] == cand_node(s, cs, sel@[i] as int));
                }
            }
            assert forall|i: int, j: int| 0 <= i < j < r@.len() implies r@[i].created_at.secs > r@[j].created_at.secs
                || (r@[i].created_at.secs == r@[j].created_at.secs && r@[i].created_at.nanos
                >= r@[j].created_at.nanos) by {
                assert(listed_before(*r@[i], *r@[j]));
            }
        }
        r
    }
}

/// The node at a candidate position.
pub open spec fn cand_node(nodes: Seq<Node>, cands: Seq<usize>, ci: int) -> Node {
    nodes[cands[ci] as int]
}

/// Whether the positions strictly increase and lie within the nodes.
pub open spec fn positions_ok(nodes: Seq<Node>, cands: Seq<usize>) -> bool {
    &&& forall|x: int| 0 <= x < cands.len() ==> cands[x] < nodes.len()
    &&& forall|x: int, y: int| 0 <= x < y < cands.len() ==> cands[x] < cands[y]
}

/// The positions of the nodes that pass the filter, in order.
fn filter_positions(nodes: &Vec<Node>, filter: Option<&str>) -> (r: Vec<usize>)
    ensures
        positions_ok(nodes@, r@),
        forall|x: int| 0 <= x < r@.len() ==> passes_filter(nodes@[#[trigger] r@[x] as int], filter_text(filter)),
        forall|b: int| 0 <= b < nodes@.len() && passes_filter(#[trigger] nodes@[b], filter_text(filter)) ==> exists|x: int|
            0 <= x < r@.len() && r@[x] == b,
{
    let n = nodes.len();
    let mut r: Vec<usize> = Vec::new();
    let mut i: usize = 0;
    while i < n
        invariant
            n == nodes@.len(),
            i <= n,
            positions_ok(nodes@, r@),
            forall|x: int| 0 <= x < r@.len() ==> r@[x] < i,
            forall|x: int| 0 <= x < r@.len() ==> passes_filter(nodes@[#[trigger] r@[x] as int], filter_text(filter)),
            forall|b: int| 0 <= b < i && passes_filter(#[trigger] nodes@[b], filter_text(filter)) ==> exists|x: int|
                0 <= x < r@.len() && r@[x] == b,
        decreases n - i,
    {
        let node = &nodes[i];
        let keep = match filter {
            None => true,
            Some(t) => match &node.supertag {
                Some(s) => text_eq(s.as_str(), t),
                None => false,
            },
        };
        let ghost old_r = r@;
        if keep {
            r.push(i);
        }
        proof {
            assert forall|b: int| 0 <= b < i + 1 && passes_filter(#[trigger] nodes@[b], filter_text(filter)) implies exists|x: int|
                0 <= x < r@.len() && r@[x] == b by {
                if b < i {
                    let x = choose|x: int| 0 <= x < old_r.len() && old_r[x] == b;
                    assert(r@[x] == b);
                } else {
                    assert(r@[old_r.len() as int] == b);
                }
            }
        }
        i = i + 1;
    }
    r
}

/// The untaken candidate listed first, if any candidate is untaken.
fn best_untaken(nodes: &Vec<Node>, cands: &Vec<usize>, taken: &Vec<bool>) -> (r: Option<usize>)
    requires
        ids_increasing(nodes@),
        positions_ok(nodes@, cands@),
        taken@.len() == cands@.len(),
    ensures
        r is None ==> forall|y: int| 0 <= y < cands@.len() ==> taken@[y],
        r matches Some(b) ==> b < cands@.len() && !taken@[b as int] && forall|y: int|
            0 <= y < cands@.len() && !taken@[y] && y != b ==> listed_before(
                cand_node(nodes@, cands@, b as int),
                #[trigger] cand_node(nodes@, cands@, y),
            ),
{
    let nc = cands.len();
    let mut best: usize = nc;
    let mut x: usize = 0;
    while x < nc
        invariant
            nc == cands@.len(),
            taken@.len() == nc,
            ids_increasing(nodes@),
            positions_ok(nodes@, cands@),
            x <= nc,
            best == nc || (best < x && !taken@[best as int]),
            best == nc ==> forall|y: int| 0 <= y < x ==> taken@[y],
            best < nc ==> forall|y: int|
                0 <= y < x && !taken@[y] && y != best ==> listed_before(
                    cand_node(nodes@, cands@, best as int),
                    #[trigger] cand_node(nodes@, cands@, y),
                ),
        decreases nc - x,
    {
        if !taken[x] {
            let ghost s = nodes@;
            let ghost cs = cands@;
            if best == nc || before(&nodes[cands[x]], &nodes[cands[best]]) {
                proof {
                    if best < nc {
                        assert forall|y: int| 0 <= y < x + 1 && !taken@[y] && y != x implies listed_before(
                            cand_node(s, cs, x as int),
                            #[trigger] cand_node(s, cs, y),
                        ) by {
                            if y != best {
                                lemma_listed_before_transitive(
                                    cand_node(s, cs, x as int),
                                    cand_node(s, cs, best as int),
                                    cand_node(s, cs, y),
                                );
                            }
                        }
                    }
                }
                best = x;
            } else {
                proof {
                    assert(cs[best as int] < cs[x as int]);
                    assert(s[cs[best as int] as int].id.0 < s[cs[x as int] as int].id.0);
                    lemma_listed_before_total(cand_node(s, cs, x as int), cand_node(s, cs, best as int));
                }
            }
        }
        x = x + 1;
    }
    if best == nc {
        None
    } else {
        Some(best)
    }
}

/// Up to `limit` candidates (as indices into `cands`), first-listed first.
fn select_first(nodes: &Vec<Node>, cands: &Vec<usize>, limit: usize) -> (r: Vec<usize>)
    requires
        ids_increasing(nodes@),
        positions_ok(nodes@, cands@),
    ensures
        r@.len() <= limit,
        forall|a: int| 0 <= a < r@.len() ==> r@[a] < cands@.len(),
        forall|a: int, b: int| 0 <= a < b < r@.len() ==> listed_before(
            cand_node(nodes@, cands@, r@[a] as int),
            cand_node(nodes@, cands@, r@[b] as int),
        ),
        forall|x: int|
            #![trigger cands@[x]]
            0 <= x < cands@.len() && !(exists|a: int| 0 <= a < r@.len() && r@[a] == x) ==> r@.len() == limit
                && forall|a: int| 0 <= a < r@.len() ==> listed_before(
                cand_node(nodes@, cands@, r@[a] as int),
                cand_node(nodes@, cands@, x),
            ),
{
    let nc = cands.len();
    let mut taken: Vec<bool> = Vec::new();
    let mut k: usize = 0;
    while k < nc
        invariant
            k <= nc,
            taken@.len() == k,
            forall|x: int| 0 <= x < k ==> !taken@[x],
        decreases nc - k,
    {
        taken.push(false);
        k = k + 1;
    }
    let ghost s = nodes@;
    let ghost cs = cands@;
    let mut r: Vec<usize> = Vec::new();
    while r.len() < limit
        invariant
            s == nodes@,
            cs == cands@,
            nc == cs.len(),
            ids_increasing(s),
            positions_ok(s, cs),
            taken@.len() == nc,
            r@.len() <= limit,
            forall|a: int| 0 <= a < r@.len() ==> r@[a] < nc && taken@[#[trigger] r@[a] as int],
            forall|x: int| 0 <= x < nc && #[trigger] taken@[x] ==> exists|a: int| 0 <= a < r@.len() && r@[a] == x,
            forall|a: int, b: int| 0 <= a < b < r@.len() ==> listed_before(
                cand_node(s, cs, r@[a] as int),
                cand_node(s, cs, r@[b] as int),
            ),
            forall|a: int, x: int|
                #![trigger r@[a], taken@[x]]
                0 <= a < r@.len() && 0 <= x < nc && !taken@[x] ==> listed_before(
                    cand_node(s, cs, r@[a] as int),
                    cand_node(s, cs, x),
                ),
        ensures
            r@.len() <= limit,
            taken@.len() == nc,
            forall|a: int| 0 <= a < r@.len() ==> r@[a] < nc && taken@[#[trigger] r@[a] as int],
            forall|x: int| 0 <= x < nc && #[trigger] taken@[x] ==> exists|a: int| 0 <= a < r@.len() && r@[a] == x,
            forall|a: int, b: int| 0 <= a < b < r@.len() ==> listed_before(
                cand_node(s, cs, r@[a] as int),
                cand_node(s, cs, r@[b] as int),
            ),
            forall|a: int, x: int|
                #![trigger r@[a], taken@[x]]
                0 <= a < r@.len() && 0 <= x < nc && !taken@[x] ==> listed_before(
                    cand_node(s, cs, r@[a] as int),
                    cand_node(s, cs, x),
                ),
            r@.len() == limit || forall|x: int| 0 <= x < nc ==> taken@[x],
        decreases nc - r@.len(),
    {
        proof {
            // Every taken candidate has its own place in the selection.
            assert forall|a: int, b: int| 0 <= a < b < r@.len() implies r@[a] != r@[b] by {
                lemma_listed_before_total(cand_node(s, cs, r@[a] as int), cand_node(s, cs, r@[b] as int));
            }
        }
        match best_untaken(nodes, cands, &taken) {
            None => {
                break;
            },
            Some(b) => {
                let ghost old_r = r@;
                let ghost old_taken = taken@;
                proof {
                    lemma_selection_bound(old_r, old_taken, b as int);
                }
                taken.set(b, true);
                r.push(b);
                proof {
                    assert forall|a: int, x: int|
                        #![trigger r@[a], taken@[x]]
                        0 <= a < r@.len() && 0 <= x < nc && !taken@[x] implies listed_before(
                            cand_node(s, cs, r@[a] as int),
                            cand_node(s, cs, x),
                        ) by {
                        if a < old_r.len() {
                            assert(old_r[a] == r@[a]);
                            assert(!old_taken[x]);
                        }
                    }
                    assert forall|x: int| 0 <= x < nc && #[trigger] taken@[x] implies exists|a: int|
                        0 <= a < r@.len() && r@[a] == x by {
                        if x == b {
                            assert(r@[old_r.len() as int] == x);
                        } else {
                            assert(old_taken[x]);
                            let a = choose|a: int| 0 <= a < old_r.len() && old_r[a] == x;
                            assert(r@[a] == x);
                        }
                    }
                    assert forall|a: int| 0 <= a < r@.len() implies r@[a] < nc && taken@[#[trigger] r@[a] as int] by {
                        if a < old_r.len() {
                            assert(old_r[a] == r@[a]);
                            assert(old_taken[old_r[a] as int]);
                        }
                    }
                    assert forall|a: int, c: int| 0 <= a < c < r@.len() implies listed_before(
                        cand_node(s, cs, r@[a] as int),
                        cand_node(s, cs, r@[c] as int),
                    ) by {
                        assert(old_r[a] == r@[a]);
                        if c < old_r.len() {
                            assert(old_r[c] == r@[c]);
                        } else {
                            assert(old_taken[old_r[a] as int]);
                            assert(!old_taken[b as int]);
                        }
                    }
                }
            },
        }
    }
    proof {
        assert forall|x: int|
            #![trigger cs[x]]
            0 <= x < cs.len() && !(exists|a: int| 0 <= a < r@.len() && r@[a] == x) implies r@.len() == limit
                && forall|a: int| 0 <= a < r@.len() ==> listed_before(
                cand_node(s, cs, r@[a] as int),
                cand_node(s, cs, x),
            ) by {
            assert(!taken@[x]);
            assert forall|a: int| 0 <= a < r@.len() implies listed_before(
                cand_node(s, cs, r@[a] as int),
                cand_node(s, cs, x),
            ) by {
                assert(taken@[r@[a] as int]);
            }
        }
    }
    r
}

/// A candidate not yet taken leaves room: the selection is shorter than the candidates.
proof fn lemma_selection_bound(r: Seq<usize>, taken: Seq<bool>, b: int)
    requires
        0 <= b < taken.len(),
        !taken[b],
        forall|a: int| 0 <= a < r.len() ==> r[a] < taken.len() && taken[#[trigger] r[a] as int],
        forall|a: int, c: int| 0 <= a < c < r.len() ==> r[a] != r[c],
    ensures
        r.len() < taken.len(),
{
    let rs = r.map_values(|v: usize| v as int).to_set();
    let all = Set::new(|x: int| 0 <= x < taken.len());
    assert(r.map_values(|v: usize| v as int).no_duplicates()) by {
        let rm = r.map_values(|v: usize| v as int);
        assert forall|a: int, c: int| 0 <= a < rm.len() && 0 <= c < rm.len() && a != c implies rm[a] != rm[c] by {
            assert(r[a] != r[c]);
        }
    }
    r.map_values(|v: usize| v as int).unique_seq_to_set();
    assert(rs.subset_of(all.remove(b)));
    vstd::set_lib::lemma_int_range(0, taken.len() as int);
    assert(all =~= vstd::set_lib::set_int_range(0, taken.len() as int));
    vstd::set_lib::lemma_len_subset(rs, all.remove(b));
}

/// Whether `a` is listed before `b`.
fn before(a: &Node, b: &Node) -> (r: bool)
    ensures
        r == listed_before(*a, *b),
{
    if b.created_at.is_before(&a.created_at) {
        true
    } else if a.created_at == b.created_at {
        a.id.0 < b.id.0
    } else {
        false
    }
}

proof fn lemma_listed_before_transitive(a: Node, b: Node, c: Node)
    requires
        listed_before(a, b),
        listed_before(b, c),
    ensures
        listed_before(a, c),
{
}

proof fn lemma_listed_before_total(a: Node, b: Node)
    ensures
        a.id != b.id ==> (listed_before(a, b) || listed_before(b, a)),
        !(listed_before(a, b) && listed_before(b, a)),
        !listed_before(a, a),
{
}

/// The position where the identifier is, or where it would go.
fn find(nodes: &Vec<Node>, id: u128) -> (r: (usize, bool))
    requires
        ids_increasing(nodes@),
    ensures
        r.0 <= nodes@.len(),
        forall|j: int| 0 <= j < r.0 ==> nodes@[j].id.0 < id,
        r.1 ==> r.0 < nodes@.len() && nodes@[r.0 as int].id.0 == id,
        !r.1 ==> forall|j: int| r.0 <= j < nodes@.len() ==> id < nodes@[j].id.0,
{
    let n = nodes.len();
    let mut i: usize = 0;
    while i < n
        invariant
            n == nodes@.len(),
            ids_increasing(nodes@),
            i <= n,
            forall|j: int| 0 <= j < i ==> nodes@[j].id.0 < id,
        decreases n - i,
    {
        if nodes[i].id.0 == id {
            return (i, true);
        }
        if id < nodes[i].id.0 {
            return (i, false);
        }
        i = i + 1;
    }
    (i, false)
}

proof fn lemma_absent(s: Seq<Node>, id: u128, p: int)
    requires
        0 <= p <= s.len(),
        forall|j: int| 0 <= j < p ==> s[j].id.0 < id,
        forall|j: int| p <= j < s.len() ==> id < s[j].id.0,
    ensures
        !node_map(s).contains_key(id),
{
    if node_map(s).contains_key(id) {
        let j = choose|j: int| 0 <= j < s.len() && s[j].id.0 == id;
        assert(j < p || j >= p);
    }
}

proof fn lemma_map_of_update(s: Seq<Node>, i: int, node: Node)
    requires
        ids_increasing(s),
        0 <= i < s.len(),
        s[i].id.0 == node.id.0,
    ensures
        ids_increasing(s.update(i, node)),
        node_map(s.update(i, node)) == node_map(s).insert(node.id.0, node),
{
    let t = s.update(i, node);
    assert(ids_increasing(t));
    assert forall|k: u128| #[trigger] node_map(t).contains_key(k) <==> node_map(s).insert(node.id.0, node).contains_key(k) by {
        if node_map(s).contains_key(k) {
            let j = choose|j: int| 0 <= j < s.len() && s[j].id.0 == k;
            assert(t[j].id.0 == k);
        }
        if node_map(t).contains_key(k) {
            let j = choose|j: int| 0 <= j < t.len() && t[j].id.0 == k;
            assert(s[j].id.0 == k);
        }
        if k == node.id.0 {
            assert(t[i].id.0 == k);
        }
    }
    assert forall|k: u128| node_map(t).contains_key(k) implies #[trigger] node_map(t)[k] == node_map(s).insert(node.id.0, node)[k] by {
        let j = choose|j: int| 0 <= j < t.len() && t[j].id.0 == k;
        lemma_node_map_at(t, j);
        if j != i {
            lemma_node_map_at(s, j);
        }
    }
    assert(node_map(t) =~= node_map(s).insert(node.id.0, node));
}

proof fn lemma_map_of_insert(s: Seq<Node>, p: int, node: Node)
    requires
        ids_increasing(s),
        0 <= p <= s.len(),
        forall|j: int| 0 <= j < p ==> s[j].id.0 < node.id.0,
        forall|j: int| p <= j < s.len() ==> node.id.0 < s[j].id.0,
    ensures
        ids_increasing(s.insert(p, node)),
        node_map(s.insert(p, node)) == node_map(s).insert(node.id.0, node),
{
    let t = s.insert(p, node);
    assert forall|a: int, b: int| 0 <= a < b < t.len() implies t[a].id.0 < t[b].id.0 by {
        if a < p && b > p {
            assert(t[a] == s[a]);
            assert(t[b] == s[b - 1]);
        }
    }
    assert forall|k: u128| #[trigger] node_map(t).contains_key(k) <==> node_map(s).insert(node.id.0, node).contains_key(k) by {
        if node_map(s).contains_key(k) {
            let j = choose|j: int| 0 <= j < s.len() && s[j].id.0 == k;
            if j < p {
                assert(t[j].id.0 == k);
            } else {
                assert(t[j + 1].id.0 == k);
            }
        }
        if node_map(t).contains_key(k) {
            let j = choose|j: int| 0 <= j < t.len() && t[j].id.0 == k;
            if j < p {
                assert(s[j].id.0 == k);
            } else if j > p {
                assert(s[j - 1].id.0 == k);
            }
        }
        if k == node.id.0 {
            assert(t[p].id.0 == k);
        }
    }
    assert forall|k: u128| node_map(t).contains_key(k) implies #[trigger] node_map(t)[k] == node_map(s).insert(node.id.0, node)[k] by {
        let j = choose|j: int| 0 <= j < t.len() && t[j].id.0 == k;
        lemma_node_map_at(t, j);
        if j < p {
            lemma_node_map_at(s, j);
        } else if j > p {
            lemma_node_map_at(s, j - 1);
        }
    }
    assert(node_map(t) =~= node_map(s).insert(node.id.0, node));
}

proof fn lemma_map_of_remove(s: Seq<Node>, i: int)
    requires
        ids_increasing(s),
        0 <= i < s.len(),
    ensures
        ids_increasing(s.remove(i)),
        node_map(s.remove(i)) == node_map(s).remove(s[i].id.0),
{
    let t = s.remove(i);
    let id = s[i].id.0;
    assert forall|a: int, b: int| 0 <= a < b < t.len() implies t[a].id.0 < t[b].id.0 by {
        if a < i && b >= i {
            assert(t[a] == s[a]);
            assert(t[b] == s[b + 1]);
        } else if a >= i {
            assert(t[a] == s[a + 1]);
            assert(t[b] == s[b + 1]);
        }
    }
    assert forall|k: u128| #[trigger] node_map(t).contains_key(k) <==> node_map(s).remove(id).contains_key(k) by {
        if node_map(s).contains_key(k) && k != id {
            let j = choose|j: int| 0 <= j < s.len() && s[j].id.0 == k;
            if j < i {
                assert(t[j].id.0 == k);
            } else {
                assert(j != i);
                assert(t[j - 1].id.0 == k);
            }
        }
        if node_map(t).contains_key(k) {
            let j = choose|j: int| 0 <= j < t.len() && t[j].id.0 == k;
            if j < i {
                assert(s[j].id.0 == k);
                assert(s[j].id.0 < id);
            } else {
                assert(s[j + 1].id.0 == k);
                assert(id < s[j + 1].id.0);
            }
        }
    }
    assert forall|k: u128| node_map(t).contains_key(k) implies #[trigger] node_map(t)[k] == node_map(s).remove(id)[k] by {
        let j = choose|j: int| 0 <= j < t.len() && t[j].id.0 == k;
        lemma_node_map_at(t, j);
        if j < i {
            lemma_node_map_at(s, j);
        } else {
            lemma_node_map_at(s, j + 1);
        }
    }
    assert(node_map(t) =~= node_map(s).remove(id));
}

/// Stores a node under its identifier, replacing any node stored there.
fn upsert(nodes: &mut Vec<Node>, node: Node)
    requires
        ids_increasing(old(nodes)@),
    ensures
        ids_increasing(final(nodes)@),
        node_map(final(nodes)@) == node_map(old(nodes)@).insert(node.id.0, node),
{
    let (i, found) = find(nodes, node.id.0);
    let ghost s = nodes@;
    if found {
        proof {
            lemma_map_of_update(s, i as int, node);
        }
        nodes.set(i, node);
    } else {
        proof {
            lemma_map_of_insert(s, i as int, node);
        }
        nodes.insert(i, node);
    }
}

} // verus!
