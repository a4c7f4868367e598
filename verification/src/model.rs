use vstd::prelude::*;

verus! {

/// Everything a graph mutation can fail with. All variants are recoverable:
/// a failed operation never mutates the graph and is reported only to the
/// client that issued the command.
#[derive(Clone, Copy, PartialEq, Eq, Structural, Debug)]
pub enum ProofError {
    /// The id is unknown, or stale: its slot was freed (and possibly reused
    /// under a newer generation) since the id was issued.
    NotFound,
    /// A statement cannot argue for itself.
    SelfLink,
    /// The requested edge would close a directed cycle.
    WouldCreateCycle,
    /// The edge to unlink does not exist.
    NotLinked,
    /// The root statement must outlive the session.
    CannotDeleteRoot,
}

/// The proof status of one statement. `Unproven` is the initial state; the
/// two proven states are terminal for the exact text and premise set they
/// were issued against — any edit or re-linking falls back to `Unproven`.
#[derive(Clone, Copy, PartialEq, Eq, Structural, Debug)]
pub enum ProofState {
    Unproven,
    /// The judging service confirmed the statement as a standalone fact.
    DirectlyProven,
    /// The judging service confirmed that the statement's premises imply it.
    ImpliedProven,
}

/// A stable, generation-tagged handle into the graph's slot table. A handle
/// embeds the generation its slot carried when the statement was created;
/// freeing a slot bumps the generation, so a stale handle never aliases a
/// statement that later reuses the slot.
#[derive(Clone, Copy, PartialEq, Eq, Structural, Debug)]
pub struct StatementId {
    pub slot: usize,
    pub generation: u64,
}

/// One node of the argument graph: its free-form text, its proof status,
/// and its neighbours. `parents` are the statements that argue for this one
/// (its premises); `children` are the statements it argues for. The two
/// lists are duplicate-free and kept symmetric across the whole graph.
pub struct Statement {
    pub statement: String,
    pub state: ProofState,
    pub parents: Vec<StatementId>,
    pub children: Vec<StatementId>,
}

/// One slot of the arena backing the graph: a generation counter and the
/// statement currently stored, if any. The counter is bumped each time the
/// slot is freed.
pub struct ArenaSlot {
    pub generation: u64,
    pub node: Option<Statement>,
}

/// The statement DAG of one session: a slot table plus the distinguished
/// root statement created at session start. Edges run from premise to
/// conclusion and never form a cycle.
pub struct StatementTree {
    pub statements: Vec<ArenaSlot>,
    pub root: StatementId,
}

impl StatementTree {
    /// An id is valid when it points at an occupied slot whose current
    /// generation is the one the id was issued with.
    pub open spec fn valid(self, id: StatementId) -> bool {
        &&& id.slot < self.statements.len()
        &&& self.statements[id.slot as int].generation == id.generation
        &&& self.statements[id.slot as int].node is Some
    }

    pub open spec fn node_of(self, id: StatementId) -> Statement
        recommends
            self.valid(id),
    {
        self.statements[id.slot as int].node->0
    }

    pub open spec fn text_of(self, id: StatementId) -> Seq<char> {
        self.node_of(id).statement@
    }

    pub open spec fn state_of(self, id: StatementId) -> ProofState {
        self.node_of(id).state
    }

    /// The premises of `id`, in insertion order.
    pub open spec fn parents_of(self, id: StatementId) -> Seq<StatementId> {
        self.node_of(id).parents@
    }

    /// The conclusions `id` argues for, in insertion order.
    pub open spec fn children_of(self, id: StatementId) -> Seq<StatementId> {
        self.node_of(id).children@
    }

    /// There is an edge from premise `p` to conclusion `c`.
    pub open spec fn has_edge(self, p: StatementId, c: StatementId) -> bool {
        &&& self.valid(p)
        &&& self.valid(c)
        &&& self.parents_of(c).contains(p)
    }

    /// `q` lists statements that are connected by edges, each to the next.
    pub open spec fn is_path(self, q: Seq<StatementId>) -> bool {
        forall|i: int| 0 <= i < q.len() - 1 ==> #[trigger] self.has_edge(q[i], q[i + 1])
    }

    /// `q` is a path that starts at `a` and ends at `b`.
    pub open spec fn connects(self, q: Seq<StatementId>, a: StatementId, b: StatementId) -> bool {
        &&& q.len() >= 1
        &&& q.first() == a
        &&& q.last() == b
        &&& self.is_path(q)
    }

    /// `b` can be reached from `a` by following edges (in zero or more
    /// steps; every statement reaches itself).
    pub open spec fn reachable(self, a: StatementId, b: StatementId) -> bool {
        exists|q: Seq<StatementId>| self.connects(q, a, b)
    }

    /// No path leads from a statement back to itself.
    pub open spec fn acyclic(self) -> bool {
        forall|q: Seq<StatementId>|
            #[trigger] self.is_path(q) && q.len() >= 2 ==> q.first() != q.last()
    }

    /// Every id stored in `l` is valid.
    pub open spec fn list_valid(self, l: Seq<StatementId>) -> bool {
        forall|i: int| 0 <= i < l.len() ==> self.valid(#[trigger] l[i])
    }

    /// Every id stored in any neighbour list is valid: deletion cascades,
    /// so the graph never holds a dangling reference.
    pub open spec fn lists_valid(self) -> bool {
        forall|id: StatementId|
            #[trigger] self.valid(id) ==> self.list_valid(self.parents_of(id))
                && self.list_valid(self.children_of(id))
    }

    /// `p` is a parent of `c` exactly when `c` is a child of `p`.
    pub open spec fn symmetric(self) -> bool {
        forall|p: StatementId, c: StatementId|
            #![trigger self.parents_of(c).contains(p)]
            #![trigger self.children_of(p).contains(c)]
            self.valid(p) && self.valid(c) ==> (self.parents_of(c).contains(p)
                <==> self.children_of(p).contains(c))
    }

    /// Neighbour lists are ordered sets: no id occurs twice.
    pub open spec fn no_dup(self) -> bool {
        forall|id: StatementId|
            #[trigger] self.valid(id) ==> self.parents_of(id).no_duplicates()
                && self.children_of(id).no_duplicates()
    }

    /// The graph invariant: the root exists, neighbour lists hold only
    /// valid ids without duplicates, parent and child lists mirror each
    /// other, and the edge set is acyclic.
    pub open spec fn wf(self) -> bool {
        &&& self.valid(self.root)
        &&& self.lists_valid()
        &&& self.symmetric()
        &&& self.no_dup()
        &&& self.acyclic()
    }

    /// `id` denotes the same statement (or the same absence of one) in
    /// `self` and in `post`.
    pub open spec fn unchanged_at(self, post: StatementTree, id: StatementId) -> bool {
        &&& post.valid(id) == self.valid(id)
        &&& self.valid(id) ==> {
            &&& post.text_of(id) == self.text_of(id)
            &&& post.state_of(id) == self.state_of(id)
            &&& post.parents_of(id) == self.parents_of(id)
            &&& post.children_of(id) == self.children_of(id)
        }
    }
}

/// A path of the sparser graph is a path of the denser one.
proof fn lemma_path_in_superset(g1: StatementTree, g2: StatementTree, q: Seq<StatementId>)
    requires
        g2.is_path(q),
        forall|a: StatementId, b: StatementId|
            #[trigger] g2.has_edge(a, b) ==> g1.has_edge(a, b),
    ensures
        g1.is_path(q),
{
    assert forall|i: int| 0 <= i < q.len() - 1 implies #[trigger] g1.has_edge(q[i], q[i + 1]) by {
        assert(g2.has_edge(q[i], q[i + 1]));
    }
}

/// Removing edges (or leaving them unchanged) cannot create a cycle.
proof fn lemma_edge_subset_acyclic(g1: StatementTree, g2: StatementTree)
    requires
        g1.acyclic(),
        forall|a: StatementId, b: StatementId|
            #[trigger] g2.has_edge(a, b) ==> g1.has_edge(a, b),
    ensures
        g2.acyclic(),
{
    assert forall|q: Seq<StatementId>|
        #[trigger] g2.is_path(q) && q.len() >= 2 implies q.first() != q.last() by {
        lemma_path_in_superset(g1, g2, q);
    }
}

/// A graph grown by one fresh, unconnected statement is still well-formed.
proof fn lemma_extend_wf(pre: StatementTree, post: StatementTree, new_id: StatementId)
    requires
        pre.wf(),
        post.valid(new_id),
        !pre.valid(new_id),
        post.root == pre.root,
        post.parents_of(new_id) == Seq::<StatementId>::empty(),
        post.children_of(new_id) == Seq::<StatementId>::empty(),
        forall|id: StatementId| id != new_id ==> pre.unchanged_at(post, id),
    ensures
        post.wf(),
{
    assert(pre.unchanged_at(post, pre.root));
    assert forall|id: StatementId| #[trigger] post.valid(id) && id != new_id
        implies pre.valid(id) && post.parents_of(id) == pre.parents_of(id)
            && post.children_of(id) == pre.children_of(id) by {
        assert(pre.unchanged_at(post, id));
    }
    assert forall|id: StatementId| #[trigger] post.valid(id)
        implies post.list_valid(post.parents_of(id)) && post.list_valid(post.children_of(id))
            && post.parents_of(id).no_duplicates() && post.children_of(id).no_duplicates() by {
        if id == new_id {
            assert(post.parents_of(id).no_duplicates());
            assert(post.children_of(id).no_duplicates());
        } else {
            assert(pre.valid(id));
            assert forall|i: int| 0 <= i < post.parents_of(id).len()
                implies post.valid(#[trigger] post.parents_of(id)[i]) by {
                let e = pre.parents_of(id)[i];
                assert(pre.valid(e));
                assert(e != new_id);
                assert(pre.unchanged_at(post, e));
            }
            assert forall|i: int| 0 <= i < post.children_of(id).len()
                implies post.valid(#[trigger] post.children_of(id)[i]) by {
                let e = pre.children_of(id)[i];
                assert(pre.valid(e));
                assert(e != new_id);
                assert(pre.unchanged_at(post, e));
            }
        }
    }
    assert forall|p: StatementId, c: StatementId|
        #![trigger post.parents_of(c).contains(p)]
        #![trigger post.children_of(p).contains(c)]
        post.valid(p) && post.valid(c)
        implies (post.parents_of(c).contains(p) <==> post.children_of(p).contains(c)) by {
        if p == new_id || c == new_id {
            if c == new_id {
                assert(!post.parents_of(c).contains(p));
                if p != new_id {
                    assert(pre.valid(p));
                    if post.children_of(p).contains(c) {
                        let i = choose|i: int|
                            0 <= i < pre.children_of(p).len() && pre.children_of(p)[i] == c;
                        assert(pre.valid(pre.children_of(p)[i]));
                        assert(false);
                    }
                } else {
                    assert(!post.children_of(p).contains(c));
                }
            } else {
                // p is the new statement, c is an old one
                assert(pre.valid(c));
                assert(!post.children_of(p).contains(c));
                if post.parents_of(c).contains(p) {
                    let i = choose|i: int|
                        0 <= i < pre.parents_of(c).len() && pre.parents_of(c)[i] == p;
                    assert(pre.valid(pre.parents_of(c)[i]));
                    assert(false);
                }
            }
        } else {
            assert(pre.valid(p) && pre.valid(c));
        }
    }
    assert forall|a: StatementId, b: StatementId|
        #[trigger] post.has_edge(a, b) implies pre.has_edge(a, b) by {
        assert(b != new_id);
        assert(pre.valid(b));
        assert(pre.parents_of(b).contains(a));
        let i = choose|i: int| 0 <= i < pre.parents_of(b).len() && pre.parents_of(b)[i] == a;
        assert(pre.valid(pre.parents_of(b)[i]));
        assert(a != new_id);
    }
    lemma_edge_subset_acyclic(pre, post);
}

/// A graph whose statements only changed text or proof status — same ids,
/// same neighbour lists — is still well-formed.
proof fn lemma_same_shape_wf(pre: StatementTree, post: StatementTree)
    requires
        pre.wf(),
        post.root == pre.root,
        forall|id: StatementId| #[trigger] post.valid(id) == pre.valid(id),
        forall|id: StatementId|
            #[trigger] pre.valid(id) ==> post.parents_of(id) == pre.parents_of(id)
                && post.children_of(id) == pre.children_of(id),
    ensures
        post.wf(),
{
    assert forall|id: StatementId| #[trigger] post.valid(id)
        implies post.list_valid(post.parents_of(id)) && post.list_valid(post.children_of(id))
            && post.parents_of(id).no_duplicates() && post.children_of(id).no_duplicates() by {
        assert(pre.valid(id));
        assert forall|i: int| 0 <= i < post.parents_of(id).len()
            implies post.valid(#[trigger] post.parents_of(id)[i]) by {
            assert(pre.valid(pre.parents_of(id)[i]));
        }
        assert forall|i: int| 0 <= i < post.children_of(id).len()
            implies post.valid(#[trigger] post.children_of(id)[i]) by {
            assert(pre.valid(pre.children_of(id)[i]));
        }
    }
    assert forall|p: StatementId, c: StatementId|
        #![trigger post.parents_of(c).contains(p)]
        #![trigger post.children_of(p).contains(c)]
        post.valid(p) && post.valid(c)
        implies (post.parents_of(c).contains(p) <==> post.children_of(p).contains(c)) by {
        assert(pre.valid(p) && pre.valid(c));
    }
    assert forall|a: StatementId, b: StatementId|
        #[trigger] post.has_edge(a, b) implies pre.has_edge(a, b) by {
        assert(pre.valid(a) && pre.valid(b));
    }
    lemma_edge_subset_acyclic(pre, post);
}

/// Copy a list of ids element by element.
fn clone_ids(l: &Vec<StatementId>) -> (r: Vec<StatementId>)
    ensures
        r@ == l@,
{
    let mut r: Vec<StatementId> = Vec::new();
    let mut i: usize = 0;
    while i < l.len()
        invariant
            i <= l.len(),
            r@ == l@.subrange(0, i as int),
        decreases l.len() - i,
    {
        r.push(l[i]);
        i = i + 1;
    }
    proof {
        assert(r@ =~= l@);
    }
    r
}

impl StatementTree {
    /// Create the graph of a fresh session: a single unproven statement,
    /// which becomes the root.
    pub fn new(root_statement: String) -> (r: Self)
        ensures
            r.wf(),
            r.valid(r.root),
            r.text_of(r.root) == root_statement@,
            r.state_of(r.root) == ProofState::Unproven,
            r.parents_of(r.root) == Seq::<StatementId>::empty(),
            r.children_of(r.root) == Seq::<StatementId>::empty(),
            forall|id: StatementId| #[trigger] r.valid(id) ==> id == r.root,
    {
        let root_node = Statement {
            statement: root_statement,
            state: ProofState::Unproven,
            parents: Vec::new(),
            children: Vec::new(),
        };
        let mut statements: Vec<ArenaSlot> = Vec::new();
        statements.push(ArenaSlot { generation: 0, node: Some(root_node) });
        let root = StatementId { slot: 0, generation: 0 };
        let r = StatementTree { statements, root };
        proof {
            assert forall|q: Seq<StatementId>|
                #[trigger] r.is_path(q) && q.len() >= 2 implies q.first() != q.last() by {
                assert(!r.has_edge(q[0], q[1]));
            }
        }
        r
    }

    /// True iff `id` currently denotes a statement.
    pub fn is_valid(&self, id: StatementId) -> (r: bool)
        ensures
            r == self.valid(id),
    {
        id.slot < self.statements.len() && self.statements[id.slot].generation == id.generation
            && self.statements[id.slot].node.is_some()
    }

    /// Find the index of a freed slot, if any.
    fn find_free_slot(&self) -> (r: Option<usize>)
        ensures
            r is Some ==> r->0 < self.statements.len()
                && self.statements[r->0 as int].node is None,
    {
        let mut i: usize = 0;
        while i < self.statements.len()
            invariant
                i <= self.statements.len(),
            decreases self.statements.len() - i,
        {
            if self.statements[i].node.is_none() {
                return Some(i);
            }
            i = i + 1;
        }
        None
    }

    /// Add a fresh unproven statement with no neighbours, reusing a freed
    /// slot when one exists. Always succeeds; the returned id denotes no
    /// statement the graph held before the call, and every other statement
    /// is untouched.
    pub fn add_node(&mut self, statement: String) -> (r: StatementId)
        requires
            old(self).wf(),
        ensures
            final(self).wf(),
            final(self).valid(r),
            !old(self).valid(r),
            final(self).root == old(self).root,
            final(self).text_of(r) == statement@,
            final(self).state_of(r) == ProofState::Unproven,
            final(self).parents_of(r) == Seq::<StatementId>::empty(),
            final(self).children_of(r) == Seq::<StatementId>::empty(),
            forall|id: StatementId| id != r ==> old(self).unchanged_at(*final(self), id),
    {
        let node = Statement {
            statement,
            state: ProofState::Unproven,
            parents: Vec::new(),
            children: Vec::new(),
        };
        let n = self.statements.len();
        let r: StatementId;
        if let Some(i) = self.find_free_slot() {
            // reuse the freed slot under its current (already bumped) generation
            let g = self.statements[i].generation;
            r = StatementId { slot: i, generation: g };
            proof {
                assert(!old(self).valid(r));
            }
            self.statements[i] = ArenaSlot { generation: g, node: Some(node) };
        } else {
            r = StatementId { slot: n, generation: 0 };
            self.statements.push(ArenaSlot { generation: 0, node: Some(node) });
        }
        proof {
            assert forall|id: StatementId| id != r implies old(self).unchanged_at(*self, id) by {
                if id.slot != r.slot {
                } else {
                    assert(old(self).valid(id) == self.valid(id));
                }
            }
            lemma_extend_wf(*old(self), *self, r);
        }
        r
    }

    /// Look up the text of a statement. Fails with `NotFound` exactly when
    /// the id is invalid or stale.
    pub fn get_statement(&self, id: StatementId) -> (r: Result<String, ProofError>)
        ensures
            r is Ok <==> self.valid(id),
            r is Ok ==> r->Ok_0@ == self.text_of(id),
            r is Err ==> r->Err_0 == ProofError::NotFound,
    {
        if !self.is_valid(id) {
            return Err(ProofError::NotFound);
        }
        let st = self.statements[id.slot].node.as_ref().unwrap();
        Ok(st.statement.clone())
    }

    /// Look up the texts of a statement's premises, in their stored order.
    /// Fails with `NotFound` exactly when the id is invalid or stale.
    pub fn get_premises(&self, id: StatementId) -> (r: Result<Vec<String>, ProofError>)
        requires
            self.wf(),
        ensures
            r is Ok <==> self.valid(id),
            r is Ok ==> {
                &&& r->Ok_0@.len() == self.parents_of(id).len()
                &&& forall|i: int| 0 <= i < self.parents_of(id).len()
                    ==> #[trigger] r->Ok_0@[i]@ == self.text_of(self.parents_of(id)[i])
            },
            r is Err ==> r->Err_0 == ProofError::NotFound,
    {
        if !self.is_valid(id) {
            return Err(ProofError::NotFound);
        }
        let parents = {
            let st = self.statements[id.slot].node.as_ref().unwrap();
            clone_ids(&st.parents)
        };
        let mut texts: Vec<String> = Vec::new();
        let mut i: usize = 0;
        while i < parents.len()
            invariant
                self.wf(),
                self.valid(id),
                i <= parents.len(),
                parents@ == self.parents_of(id),
                texts@.len() == i,
                forall|j: int| 0 <= j < i
                    ==> #[trigger] texts@[j]@ == self.text_of(self.parents_of(id)[j]),
            decreases parents.len() - i,
        {
            let pid = parents[i];
            proof {
                assert(self.valid(self.parents_of(id)[i as int]));
            }
            let st = self.statements[pid.slot].node.as_ref().unwrap();
            texts.push(st.statement.clone());
            i = i + 1;
        }
        Ok(texts)
    }
}


/// Pushing onto a list adds exactly one membership.
proof fn lemma_push_contains(s: Seq<StatementId>, v: StatementId, x: StatementId)
    ensures
        s.push(v).contains(x) <==> (s.contains(x) || x == v),
{
    if s.push(v).contains(x) {
        let i = choose|i: int| 0 <= i < s.push(v).len() && s.push(v)[i] == x;
        if i < s.len() {
            assert(s[i] == x);
        }
    }
    if s.contains(x) {
        let i = choose|i: int| 0 <= i < s.len() && s[i] == x;
        assert(s.push(v)[i] == x);
    }
    if x == v {
        assert(s.push(v)[s.len() as int] == x);
    }
}

/// Number of marked slots in a visited map.
spec fn count_marked(s: Seq<bool>) -> int
    decreases s.len(),
{
    if s.len() == 0 {
        0
    } else {
        count_marked(s.drop_last()) + if s.last() { 1int } else { 0int }
    }
}

proof fn lemma_count_marked_le(s: Seq<bool>)
    ensures
        0 <= count_marked(s) <= s.len(),
    decreases s.len(),
{
    if s.len() > 0 {
        lemma_count_marked_le(s.drop_last());
    }
}

proof fn lemma_count_marked_update(s: Seq<bool>, i: int)
    requires
        0 <= i < s.len(),
        !s[i],
    ensures
        count_marked(s.update(i, true)) == count_marked(s) + 1,
    decreases s.len(),
{
    let t = s.update(i, true);
    if i == s.len() - 1 {
        assert(t.drop_last() =~= s.drop_last());
        assert(t.last());
    } else {
        assert(t.drop_last() =~= s.drop_last().update(i, true));
        assert(t.last() == s.last());
        lemma_count_marked_update(s.drop_last(), i);
    }
}

/// Membership test on a list of ids.

fn id_list_contains(l: &Vec<StatementId>, id: StatementId) -> (r: bool)
    ensures
        r == l@.contains(id),
{
    let mut i: usize = 0;
    while i < l.len()
        invariant
            i <= l.len(),
            forall|j: int| 0 <= j < i ==> l@[j] != id,
        decreases l.len() - i,
    {
        if l[i] == id {
            return true;
        }
        i = i + 1;
    }
    false
}

impl StatementTree {
    /// `id` is a valid statement whose slot is marked in `vis`.
    pub open spec fn marked(self, vis: Seq<bool>, id: StatementId) -> bool {
        self.valid(id) && vis[id.slot as int]
    }

    /// The marked set is closed under following edges.
    pub open spec fn closed_under_edges(self, vis: Seq<bool>) -> bool {
        forall|a: StatementId, b: StatementId|
            self.marked(vis, a) && #[trigger] self.has_edge(a, b) ==> self.marked(vis, b)
    }

    /// Two valid ids that share a slot are the same id.
    proof fn lemma_valid_same_slot(self, a: StatementId, b: StatementId)
        requires
            self.valid(a),
            self.valid(b),
            a.slot == b.slot,
        ensures
            a == b,
    {
    }

    /// One more edge extends a path's reach by one statement.
    proof fn lemma_reachable_step(self, from: StatementId, u: StatementId, w: StatementId)
        requires
            self.reachable(from, u),
            self.has_edge(u, w),
        ensures
            self.reachable(from, w),
    {
        let q = choose|q: Seq<StatementId>| self.connects(q, from, u);
        let q2 = q.push(w);
        assert forall|i: int| 0 <= i < q2.len() - 1
            implies #[trigger] self.has_edge(q2[i], q2[i + 1]) by {
            if i < q.len() - 1 {
                assert(self.has_edge(q[i], q[i + 1]));
                assert(q2[i] == q[i] && q2[i + 1] == q[i + 1]);
            } else {
                assert(q2[i] == q.last() && q2[i + 1] == w);
            }
        }
        assert(self.connects(q2, from, w));
    }

    /// A path that starts inside a set closed under edges ends inside it.
    proof fn lemma_path_stays_closed(self, vis: Seq<bool>, q: Seq<StatementId>)
        requires
            self.is_path(q),
            q.len() >= 1,
            self.marked(vis, q.first()),
            self.closed_under_edges(vis),
        ensures
            self.marked(vis, q.last()),
        decreases q.len(),
    {
        if q.len() > 1 {
            let q2 = q.drop_last();
            assert forall|i: int| 0 <= i < q2.len() - 1
                implies #[trigger] self.has_edge(q2[i], q2[i + 1]) by {
                assert(self.has_edge(q[i], q[i + 1]));
            }
            self.lemma_path_stays_closed(vis, q2);
            assert(self.has_edge(q[q.len() - 2], q[(q.len() - 2) + 1]));
            assert(self.marked(vis, q[q.len() - 2]));
        }
    }

    /// Decide whether `to` can be reached from `from` along edges, by a
    /// worklist search over the slot table.
    fn reaches(&self, from: StatementId, to: StatementId) -> (r: bool)
        requires
            self.wf(),
            self.valid(from),
            self.valid(to),
        ensures
            r == self.reachable(from, to),
    {
        let n = self.statements.len();
        let mut visited: Vec<bool> = Vec::new();
        let mut k: usize = 0;
        while k < n
            invariant
                k <= n,
                visited@.len() == k,
                forall|j: int| 0 <= j < k ==> !visited@[j],
            decreases n - k,
        {
            visited.push(false);
            k = k + 1;
        }
        let mut stack: Vec<StatementId> = Vec::new();
        stack.push(from);
        visited[from.slot] = true;
        proof {
            let q0 = seq![from];
            assert(self.connects(q0, from, from));
            assert forall|id: StatementId| self.marked(visited@, id)
                implies self.reachable(from, id) by {
                if id.slot == from.slot {
                    self.lemma_valid_same_slot(id, from);
                } else {
                    assert(!visited@[id.slot as int]);
                }
            }
            assert(stack@[0] == from);
            assert(stack@.contains(from));
            assert forall|a: StatementId, b: StatementId|
                self.marked(visited@, a) && #[trigger] self.has_edge(a, b)
                    && !stack@.contains(a) implies self.marked(visited@, b) by {
                if a.slot == from.slot {
                    self.lemma_valid_same_slot(a, from);
                } else {
                    assert(!visited@[a.slot as int]);
                }
            }
        }
        while stack.len() > 0
            invariant
                self.wf(),
                self.valid(from),
                self.valid(to),
                visited@.len() == self.statements.len(),
                self.marked(visited@, from),
                forall|j: int| 0 <= j < stack@.len()
                    ==> self.marked(visited@, #[trigger] stack@[j]),
                forall|id: StatementId| self.marked(visited@, id)
                    ==> self.reachable(from, id),
                forall|a: StatementId, b: StatementId|
                    self.marked(visited@, a) && #[trigger] self.has_edge(a, b)
                        && !stack@.contains(a) ==> self.marked(visited@, b),
            decreases
                visited@.len() - count_marked(visited@),
                stack@.len(),
        {
            proof {
                lemma_count_marked_le(visited@);
            }
            let ghost stack0 = stack@;
            let u = stack.pop().unwrap();
            let ghost cnt0 = count_marked(visited@);
            let ghost slen0 = stack@.len();
            proof {
                assert(stack0 =~= stack@.push(u));
                assert(self.marked(visited@, u));
                assert(self.reachable(from, u));
                assert forall|a: StatementId, b: StatementId|
                    self.marked(visited@, a) && #[trigger] self.has_edge(a, b)
                        && !stack@.contains(a) && a != u
                        implies self.marked(visited@, b) by {
                    lemma_push_contains(stack@, u, a);
                    assert(!stack0.contains(a));
                }
            }
            let num_children = {
                let st = self.statements[u.slot].node.as_ref().unwrap();
                st.children.len()
            };
            let mut j: usize = 0;
            while j < num_children
                invariant
                    self.wf(),
                    self.valid(from),
                    self.valid(to),
                    self.valid(u),
                    self.reachable(from, u),
                    num_children == self.children_of(u).len(),
                    j <= num_children,
                    visited@.len() == self.statements.len(),
                    self.marked(visited@, from),
                    self.marked(visited@, u),
                    forall|jj: int| 0 <= jj < stack@.len()
                        ==> self.marked(visited@, #[trigger] stack@[jj]),
                    forall|id: StatementId| self.marked(visited@, id)
                        ==> self.reachable(from, id),
                    forall|jj: int| 0 <= jj < j
                        ==> self.marked(visited@, #[trigger] self.children_of(u)[jj]),
                    forall|a: StatementId, b: StatementId|
                        self.marked(visited@, a) && #[trigger] self.has_edge(a, b)
                            && !stack@.contains(a) && a != u ==> self.marked(visited@, b),
                    count_marked(visited@) >= cnt0,
                    count_marked(visited@) - cnt0 >= stack@.len() - slen0,
                decreases num_children - j,
            {
                let c = {
                    let st = self.statements[u.slot].node.as_ref().unwrap();
                    st.children[j]
                };
                proof {
                    assert(self.valid(self.children_of(u)[j as int]));
                    assert(self.children_of(u).contains(c));
                    assert(self.parents_of(c).contains(u));
                    assert(self.has_edge(u, c));
                    self.lemma_reachable_step(from, u, c);
                }
                if !visited[c.slot] {
                    let ghost vis0 = visited@;
                    let ghost stack1 = stack@;
                    visited[c.slot] = true;
                    stack.push(c);
                    proof {
                        lemma_count_marked_update(vis0, c.slot as int);
                        assert forall|id: StatementId| self.marked(visited@, id)
                            implies self.reachable(from, id) by {
                            if id.slot != c.slot {
                                assert(self.marked(vis0, id));
                            } else {
                                self.lemma_valid_same_slot(id, c);
                            }
                        }
                        assert forall|jj: int| 0 <= jj < stack@.len()
                            implies self.marked(visited@, #[trigger] stack@[jj]) by {
                            if jj < stack1.len() {
                                assert(self.marked(vis0, stack1[jj]));
                            } else {
                                assert(stack@[jj] == c);
                            }
                        }
                        assert forall|a: StatementId, b: StatementId|
                            self.marked(visited@, a) && #[trigger] self.has_edge(a, b)
                                && !stack@.contains(a) && a != u
                                implies self.marked(visited@, b) by {
                            lemma_push_contains(stack1, c, a);
                            if a.slot == c.slot {
                                self.lemma_valid_same_slot(a, c);
                                assert(stack@[stack@.len() - 1] == c);
                                assert(false);
                            } else {
                                assert(self.marked(vis0, a));
                                if stack1.contains(a) {
                                    let ii = choose|ii: int|
                                        0 <= ii < stack1.len() && stack1[ii] == a;
                                    assert(stack@[ii] == a);
                                    assert(false);
                                }
                                assert(self.marked(vis0, b));
                            }
                        }
                    }
                }
                j = j + 1;
            }
            proof {
                assert forall|a: StatementId, b: StatementId|
                    self.marked(visited@, a) && #[trigger] self.has_edge(a, b)
                        && !stack@.contains(a) implies self.marked(visited@, b) by {
                    if a == u {
                        assert(self.parents_of(b).contains(a));
                        assert(self.children_of(a).contains(b));
                        let jj = choose|jj: int|
                            0 <= jj < self.children_of(u).len() && self.children_of(u)[jj] == b;
                        assert(self.marked(visited@, self.children_of(u)[jj]));
                    }
                }
                lemma_count_marked_le(visited@);
                assert(count_marked(visited@) >= cnt0);
                assert(count_marked(visited@) == cnt0 ==> stack@.len() <= slen0);
            }
        }
        let r = visited[to.slot];
        proof {
            if r {
                assert(self.marked(visited@, to));
            } else {
                if self.reachable(from, to) {
                    assert(stack@.len() == 0);
                    assert forall|a: StatementId, b: StatementId|
                        self.marked(visited@, a) && #[trigger] self.has_edge(a, b)
                            implies self.marked(visited@, b) by {
                        assert(!stack@.contains(a));
                    }
                    assert(self.closed_under_edges(visited@));
                    let q = choose|q: Seq<StatementId>| self.connects(q, from, to);
                    self.lemma_path_stays_closed(visited@, q);
                    assert(false);
                }
            }
        }
        r
    }
}

/// Appending a fresh id keeps a list duplicate-free.
proof fn lemma_push_no_dup(s: Seq<StatementId>, v: StatementId)
    requires
        s.no_duplicates(),
        !s.contains(v),
    ensures
        s.push(v).no_duplicates(),
{
    let t = s.push(v);
    assert forall|i: int, j: int| 0 <= i < t.len() && 0 <= j < t.len() && i != j
        implies t[i] != t[j] by {
        if i < s.len() && j < s.len() {
            assert(s[i] != s[j]);
        } else if i < s.len() {
            assert(s[i] != v);
        } else if j < s.len() {
            assert(s[j] != v);
        }
    }
}

/// In a graph extended by the single edge `p -> c`, any path from `c` to
/// `p` can take a detour around the new edge: `p` was already reachable
/// from `c` before the edge was added.
proof fn lemma_detour(
    g1: StatementTree,
    g2: StatementTree,
    p: StatementId,
    c: StatementId,
    q: Seq<StatementId>,
)
    requires
        forall|a: StatementId, b: StatementId|
            #[trigger] g2.has_edge(a, b) <==> g1.has_edge(a, b) || (a == p && b == c),
        g2.is_path(q),
        q.len() >= 1,
        q.first() == c,
        q.last() == p,
    ensures
        g1.reachable(c, p),
    decreases q.len(),
{
    if exists|i: int| #![trigger q[i]] 0 <= i < q.len() - 1 && q[i] == p && q[i + 1] == c {
        let i = choose|i: int| #![trigger q[i]] 0 <= i < q.len() - 1 && q[i] == p && q[i + 1] == c;
        let q2 = q.subrange(0, i + 1);
        assert forall|k: int| 0 <= k < q2.len() - 1
            implies #[trigger] g2.has_edge(q2[k], q2[k + 1]) by {
            assert(g2.has_edge(q[k], q[k + 1]));
        }
        assert(q2.first() == c);
        assert(q2.last() == q[i]);
        lemma_detour(g1, g2, p, c, q2);
    } else {
        assert forall|k: int| 0 <= k < q.len() - 1
            implies #[trigger] g1.has_edge(q[k], q[k + 1]) by {
            assert(g2.has_edge(q[k], q[k + 1]));
            assert(!(q[k] == p && q[k + 1] == c));
        }
        assert(g1.connects(q, c, p));
    }
}

/// Adding the edge `p -> c` to an acyclic graph keeps it acyclic, provided
/// `p` was not reachable from `c`.
proof fn lemma_link_preserves_acyclic(
    g1: StatementTree,
    g2: StatementTree,
    p: StatementId,
    c: StatementId,
)
    requires
        g1.acyclic(),
        !g1.reachable(c, p),
        forall|a: StatementId, b: StatementId|
            #[trigger] g2.has_edge(a, b) <==> g1.has_edge(a, b) || (a == p && b == c),
    ensures
        g2.acyclic(),
{
    assert forall|q: Seq<StatementId>|
        #[trigger] g2.is_path(q) && q.len() >= 2 implies q.first() != q.last() by {
        if q.first() == q.last() {
            if exists|i: int| #![trigger q[i]] 0 <= i < q.len() - 1 && q[i] == p && q[i + 1] == c {
                let i = choose|i: int|
                    #![trigger q[i]]
                    0 <= i < q.len() - 1 && q[i] == p && q[i + 1] == c;
                let ln = q.len() as int;
                let s1 = ln - (i + 1);
                let r = q.subrange(i + 1, ln) + q.subrange(1, i + 1);
                assert(r.len() == ln - 1);
                assert forall|k: int| 0 <= k < r.len() - 1
                    implies #[trigger] g2.has_edge(r[k], r[k + 1]) by {
                    if k < s1 - 1 {
                        assert(r[k] == q[i + 1 + k]);
                        assert(r[k + 1] == q[i + 1 + k + 1]);
                        assert(g2.has_edge(q[i + 1 + k], q[(i + 1 + k) + 1]));
                    } else if k == s1 - 1 {
                        assert(r[k] == q[ln - 1]);
                        assert(r[k + 1] == q[1]);
                        assert(g2.has_edge(q[0int], q[0int + 1]));
                        assert(q[ln - 1] == q[0]);
                    } else {
                        assert(r[k] == q[k - s1 + 1]);
                        assert(r[k + 1] == q[k - s1 + 2]);
                        assert(g2.has_edge(q[k - s1 + 1], q[(k - s1 + 1) + 1]));
                    }
                }
                assert(r.first() == q[i + 1]);
                if i >= 1 {
                    assert(r.last() == q[i]);
                } else {
                    assert(r.last() == q[ln - 1]);
                    assert(q[ln - 1] == q[0]);
                }
                lemma_detour(g1, g2, p, c, r);
                assert(false);
            } else {
                assert forall|k: int| 0 <= k < q.len() - 1
                    implies #[trigger] g1.has_edge(q[k], q[k + 1]) by {
                    assert(g2.has_edge(q[k], q[k + 1]));
                    assert(!(q[k] == p && q[k + 1] == c));
                }
                assert(g1.is_path(q));
                assert(false);
            }
        }
    }
}

impl StatementTree {
    /// Replace the stored node at a known-valid id, keeping the slot's
    /// generation. Shared tail of the text and proof-state mutators.
    fn replace_node(&mut self, id: StatementId, text: String, state: ProofState)
        requires
            old(self).wf(),
            old(self).valid(id),
        ensures
            final(self).wf(),
            final(self).root == old(self).root,
            final(self).valid(id),
            final(self).text_of(id) == text@,
            final(self).state_of(id) == state,
            final(self).parents_of(id) == old(self).parents_of(id),
            final(self).children_of(id) == old(self).children_of(id),
            forall|x: StatementId| x != id ==> old(self).unchanged_at(*final(self), x),
            forall|x: StatementId| #[trigger] final(self).valid(x) == old(self).valid(x),
    {
        let g = self.statements[id.slot].generation;
        let (parents, children) = {
            let st = self.statements[id.slot].node.as_ref().unwrap();
            (clone_ids(&st.parents), clone_ids(&st.children))
        };
        self.statements[id.slot] = ArenaSlot {
            generation: g,
            node: Some(Statement { statement: text, state, parents, children }),
        };
        proof {
            assert forall|x: StatementId| x != id
                implies old(self).unchanged_at(*self, x) by {
                if x.slot == id.slot {
                    assert(old(self).valid(x) == self.valid(x));
                }
            }
            assert forall|x: StatementId| #[trigger] old(self).valid(x)
                implies self.parents_of(x) == old(self).parents_of(x)
                    && self.children_of(x) == old(self).children_of(x) by {
                if x.slot == id.slot {
                    old(self).lemma_valid_same_slot(x, id);
                }
            }
            assert forall|x: StatementId| #[trigger] self.valid(x) == old(self).valid(x) by {
            }
            lemma_same_shape_wf(*old(self), *self);
        }
    }

    /// Replace a statement's text and reset it to `Unproven`: a verdict is
    /// only valid for the exact text it was issued against. Fails with
    /// `NotFound` exactly when the id is invalid or stale, and then changes
    /// nothing.
    pub fn change_node_statement(&mut self, id: StatementId, statement: String) -> (r: Result<
        (),
        ProofError,
    >)
        requires
            old(self).wf(),
        ensures
            final(self).wf(),
            r is Ok <==> old(self).valid(id),
            r is Err ==> r->Err_0 == ProofError::NotFound && *final(self) == *old(self),
            r is Ok ==> {
                &&& final(self).root == old(self).root
                &&& final(self).valid(id)
                &&& final(self).text_of(id) == statement@
                &&& final(self).state_of(id) == ProofState::Unproven
                &&& final(self).parents_of(id) == old(self).parents_of(id)
                &&& final(self).children_of(id) == old(self).children_of(id)
                &&& (forall|x: StatementId| x != id ==> old(self).unchanged_at(*final(self), x))
            },
    {
        if !self.is_valid(id) {
            return Err(ProofError::NotFound);
        }
        self.replace_node(id, statement, ProofState::Unproven);
        Ok(())
    }

    /// Set a statement's proof state, keeping its text. Fails with
    /// `NotFound` exactly when the id is invalid or stale.
    fn set_state(&mut self, id: StatementId, state: ProofState) -> (r: Result<(), ProofError>)
        requires
            old(self).wf(),
        ensures
            final(self).wf(),
            r is Ok <==> old(self).valid(id),
            r is Err ==> r->Err_0 == ProofError::NotFound && *final(self) == *old(self),
            r is Ok ==> {
                &&& final(self).root == old(self).root
                &&& final(self).valid(id)
                &&& final(self).text_of(id) == old(self).text_of(id)
                &&& final(self).state_of(id) == state
                &&& final(self).parents_of(id) == old(self).parents_of(id)
                &&& final(self).children_of(id) == old(self).children_of(id)
                &&& (forall|x: StatementId| x != id ==> old(self).unchanged_at(*final(self), x))
            },
    {
        if !self.is_valid(id) {
            return Err(ProofError::NotFound);
        }
        let text = {
            let st = self.statements[id.slot].node.as_ref().unwrap();
            st.statement.clone()
        };
        self.replace_node(id, text, state);
        Ok(())
    }

    /// Record that the judging service confirmed this statement as a
    /// standalone fact.
    pub fn set_directly_proven(&mut self, id: StatementId) -> (r: Result<(), ProofError>)
        requires
            old(self).wf(),
        ensures
            final(self).wf(),
            r is Ok <==> old(self).valid(id),
            r is Err ==> r->Err_0 == ProofError::NotFound && *final(self) == *old(self),
            r is Ok ==> {
                &&& final(self).root == old(self).root
                &&& final(self).valid(id)
                &&& final(self).text_of(id) == old(self).text_of(id)
                &&& final(self).state_of(id) == ProofState::DirectlyProven
                &&& final(self).parents_of(id) == old(self).parents_of(id)
                &&& final(self).children_of(id) == old(self).children_of(id)
                &&& (forall|x: StatementId| x != id ==> old(self).unchanged_at(*final(self), x))
            },
    {
        self.set_state(id, ProofState::DirectlyProven)
    }

    /// Record that the judging service confirmed that this statement's
    /// current premises imply it.
    pub fn set_implied(&mut self, id: StatementId) -> (r: Result<(), ProofError>)
        requires
            old(self).wf(),
        ensures
            final(self).wf(),
            r is Ok <==> old(self).valid(id),
            r is Err ==> r->Err_0 == ProofError::NotFound && *final(self) == *old(self),
            r is Ok ==> {
                &&& final(self).root == old(self).root
                &&& final(self).valid(id)
                &&& final(self).text_of(id) == old(self).text_of(id)
                &&& final(self).state_of(id) == ProofState::ImpliedProven
                &&& final(self).parents_of(id) == old(self).parents_of(id)
                &&& final(self).children_of(id) == old(self).children_of(id)
                &&& (forall|x: StatementId| x != id ==> old(self).unchanged_at(*final(self), x))
            },
    {
        self.set_state(id, ProofState::ImpliedProven)
    }

    /// Link `premise` as an argument for `conclusion`. Fails with
    /// `NotFound` if either id is invalid or stale, `SelfLink` if the two
    /// are the same statement, and `WouldCreateCycle` if `premise` is
    /// already reachable from `conclusion` (so the new edge would close a
    /// cycle). On success the edge exists, and `conclusion` falls back to
    /// `Unproven`: a new premise invalidates any earlier implication
    /// verdict. A failed call changes nothing.
    pub fn link(&mut self, premise: StatementId, conclusion: StatementId) -> (r: Result<
        (),
        ProofError,
    >)
        requires
            old(self).wf(),
        ensures
            final(self).wf(),
            r is Err ==> *final(self) == *old(self),
            r == (if !old(self).valid(premise) || !old(self).valid(conclusion) {
                Err::<(), ProofError>(ProofError::NotFound)
            } else if premise == conclusion {
                Err(ProofError::SelfLink)
            } else if old(self).reachable(conclusion, premise) {
                Err(ProofError::WouldCreateCycle)
            } else {
                Ok(())
            }),
            r is Ok ==> {
                &&& final(self).root == old(self).root
                &&& final(self).has_edge(premise, conclusion)
                &&& final(self).state_of(conclusion) == ProofState::Unproven
                &&& final(self).text_of(conclusion) == old(self).text_of(conclusion)
                &&& final(self).children_of(conclusion) == old(self).children_of(conclusion)
                &&& final(self).parents_of(conclusion)
                    == (if old(self).parents_of(conclusion).contains(premise) {
                        old(self).parents_of(conclusion)
                    } else {
                        old(self).parents_of(conclusion).push(premise)
                    })
                &&& final(self).parents_of(premise) == old(self).parents_of(premise)
                &&& final(self).children_of(premise)
                    == (if old(self).parents_of(conclusion).contains(premise) {
                        old(self).children_of(premise)
                    } else {
                        old(self).children_of(premise).push(conclusion)
                    })
                &&& final(self).text_of(premise) == old(self).text_of(premise)
                &&& final(self).state_of(premise) == old(self).state_of(premise)
                &&& (forall|x: StatementId|
                    x != premise && x != conclusion ==> old(self).unchanged_at(*final(self), x))
                &&& (forall|x: StatementId|
                    #[trigger] final(self).valid(x) == old(self).valid(x))
            },
    {
        if !self.is_valid(premise) || !self.is_valid(conclusion) {
            return Err(ProofError::NotFound);
        }
        if premise.slot == conclusion.slot {
            proof {
                self.lemma_valid_same_slot(premise, conclusion);
            }
            return Err(ProofError::SelfLink);
        }
        if self.reaches(conclusion, premise) {
            return Err(ProofError::WouldCreateCycle);
        }
        let already = {
            let st = self.statements[conclusion.slot].node.as_ref().unwrap();
            id_list_contains(&st.parents, premise)
        };
        let gc = self.statements[conclusion.slot].generation;
        let (text_c, mut parents_c, children_c) = {
            let st = self.statements[conclusion.slot].node.as_ref().unwrap();
            (st.statement.clone(), clone_ids(&st.parents), clone_ids(&st.children))
        };
        if !already {
            parents_c.push(premise);
        }
        self.statements[conclusion.slot] = ArenaSlot {
            generation: gc,
            node: Some(Statement {
                statement: text_c,
                state: ProofState::Unproven,
                parents: parents_c,
                children: children_c,
            }),
        };
        if !already {
            let gp = self.statements[premise.slot].generation;
            let (text_p, state_p, parents_p, mut children_p) = {
                let st = self.statements[premise.slot].node.as_ref().unwrap();
                (st.statement.clone(), st.state, clone_ids(&st.parents), clone_ids(&st.children))
            };
            children_p.push(conclusion);
            self.statements[premise.slot] = ArenaSlot {
                generation: gp,
                node: Some(Statement {
                    statement: text_p,
                    state: state_p,
                    parents: parents_p,
                    children: children_p,
                }),
            };
        }
        proof {
            let pre = *old(self);
            let post = *self;
            let p = premise;
            let c = conclusion;
            assert forall|x: StatementId| x != p && x != c
                implies pre.unchanged_at(post, x) by {
                if x.slot == p.slot || x.slot == c.slot {
                    assert(pre.valid(x) == post.valid(x));
                }
            }
            assert forall|x: StatementId| #[trigger] post.valid(x) == pre.valid(x) by {
            }
            if already {
                assert forall|x: StatementId| #[trigger] pre.valid(x)
                    implies post.parents_of(x) == pre.parents_of(x)
                        && post.children_of(x) == pre.children_of(x) by {
                    if x.slot == c.slot {
                        pre.lemma_valid_same_slot(x, c);
                    } else if x.slot == p.slot {
                        pre.lemma_valid_same_slot(x, p);
                    }
                }
                lemma_same_shape_wf(pre, post);
            } else {
                assert(post.parents_of(c) == pre.parents_of(c).push(p));
                assert(post.children_of(p) == pre.children_of(p).push(c));
                assert forall|x: StatementId| x != p && x != c && pre.valid(x)
                    implies post.parents_of(x) == pre.parents_of(x)
                        && post.children_of(x) == pre.children_of(x) by {
                    assert(pre.unchanged_at(post, x));
                }
                // every stored id is still valid
                assert forall|x: StatementId| #[trigger] post.valid(x)
                    implies post.list_valid(post.parents_of(x))
                        && post.list_valid(post.children_of(x))
                        && post.parents_of(x).no_duplicates()
                        && post.children_of(x).no_duplicates() by {
                    assert(pre.valid(x));
                    assert forall|i: int| 0 <= i < post.parents_of(x).len()
                        implies post.valid(#[trigger] post.parents_of(x)[i]) by {
                        if x == c && i == pre.parents_of(c).len() {
                            assert(post.parents_of(x)[i] == p);
                        } else {
                            assert(post.parents_of(x)[i] == pre.parents_of(x)[i]);
                            assert(pre.valid(pre.parents_of(x)[i]));
                        }
                    }
                    assert forall|i: int| 0 <= i < post.children_of(x).len()
                        implies post.valid(#[trigger] post.children_of(x)[i]) by {
                        if x == p && i == pre.children_of(p).len() {
                            assert(post.children_of(x)[i] == c);
                        } else {
                            assert(post.children_of(x)[i] == pre.children_of(x)[i]);
                            assert(pre.valid(pre.children_of(x)[i]));
                        }
                    }
                    if x == c {
                        assert(!pre.parents_of(c).contains(p));
                        lemma_push_no_dup(pre.parents_of(c), p);
                        assert(post.children_of(c) == pre.children_of(c));
                    }
                    if x == p {
                        assert(!pre.children_of(p).contains(c));
                        lemma_push_no_dup(pre.children_of(p), c);
                        assert(post.parents_of(p) == pre.parents_of(p));
                    }
                }
                // symmetry
                assert forall|a: StatementId, b: StatementId|
                    #![trigger post.parents_of(b).contains(a)]
                    #![trigger post.children_of(a).contains(b)]
                    post.valid(a) && post.valid(b)
                    implies (post.parents_of(b).contains(a)
                        <==> post.children_of(a).contains(b)) by {
                    assert(pre.valid(a) && pre.valid(b));
                    if b == c {
                        lemma_push_contains(pre.parents_of(c), p, a);
                        if a == p {
                            lemma_push_contains(pre.children_of(p), c, b);
                        } else {
                            assert(post.children_of(a) == pre.children_of(a));
                            assert(pre.parents_of(b).contains(a)
                                <==> pre.children_of(a).contains(b));
                        }
                    } else {
                        assert(post.parents_of(b) == pre.parents_of(b));
                        if a == p {
                            lemma_push_contains(pre.children_of(p), c, b);
                            assert(pre.parents_of(b).contains(a)
                                <==> pre.children_of(a).contains(b));
                        } else {
                            assert(pre.parents_of(b).contains(a)
                                <==> pre.children_of(a).contains(b));
                        }
                    }
                }
                // the edge set grew by exactly (p, c)
                assert forall|a: StatementId, b: StatementId|
                    #[trigger] post.has_edge(a, b)
                        <==> pre.has_edge(a, b) || (a == p && b == c) by {
                    if b == c {
                        lemma_push_contains(pre.parents_of(c), p, a);
                    } else {
                        if post.valid(a) && post.valid(b) {
                            assert(post.parents_of(b) == pre.parents_of(b));
                        }
                    }
                }
                lemma_link_preserves_acyclic(pre, post, p, c);
                assert(post.valid(post.root));
            }
            lemma_push_contains(pre.parents_of(c), p, p);
            assert(post.has_edge(p, c));
        }
        Ok(())
    }
}

/// `s` with every occurrence of `id` removed, other elements kept in order.
pub open spec fn remove_id(s: Seq<StatementId>, id: StatementId) -> Seq<StatementId>
    decreases s.len(),
{
    if s.len() == 0 {
        Seq::empty()
    } else if s.last() == id {
        remove_id(s.drop_last(), id)
    } else {
        remove_id(s.drop_last(), id).push(s.last())
    }
}

/// What `remove_id` keeps: everything but `id`.
pub proof fn lemma_remove_id_contains(s: Seq<StatementId>, id: StatementId, x: StatementId)
    ensures
        remove_id(s, id).contains(x) <==> (s.contains(x) && x != id),
    decreases s.len(),
{
    if s.len() > 0 {
        lemma_remove_id_contains(s.drop_last(), id, x);
        assert(s.drop_last().contains(x) ==> s.contains(x)) by {
            if s.drop_last().contains(x) {
                let i = choose|i: int|
                    0 <= i < s.drop_last().len() && s.drop_last()[i] == x;
                assert(s[i] == x);
            }
        }
        if s.last() != id {
            lemma_push_contains(remove_id(s.drop_last(), id), s.last(), x);
        }
        if s.contains(x) && x != id {
            let i = choose|i: int| 0 <= i < s.len() && s[i] == x;
            if i < s.len() - 1 {
                assert(s.drop_last()[i] == x);
            }
        }
    }
}

/// `remove_id` keeps a duplicate-free list duplicate-free.
pub proof fn lemma_remove_id_no_dup(s: Seq<StatementId>, id: StatementId)
    requires
        s.no_duplicates(),
    ensures
        remove_id(s, id).no_duplicates(),
    decreases s.len(),
{
    if s.len() > 0 {
        assert forall|i: int, j: int|
            0 <= i < s.drop_last().len() && 0 <= j < s.drop_last().len() && i != j
            implies s.drop_last()[i] != s.drop_last()[j] by {
            assert(s[i] != s[j]);
        }
        lemma_remove_id_no_dup(s.drop_last(), id);
        if s.last() != id {
            assert(!s.drop_last().contains(s.last())) by {
                if s.drop_last().contains(s.last()) {
                    let i = choose|i: int|
                        0 <= i < s.drop_last().len() && s.drop_last()[i] == s.last();
                    assert(s[i] == s[s.len() - 1]);
                }
            }
            assert(!remove_id(s.drop_last(), id).contains(s.last())) by {
                lemma_remove_id_contains(s.drop_last(), id, s.last());
            }
            lemma_push_no_dup(remove_id(s.drop_last(), id), s.last());
        }
    }
}

/// A list that never held `id` is returned unchanged by `remove_id`.
pub proof fn lemma_remove_id_absent(s: Seq<StatementId>, id: StatementId)
    requires
        !s.contains(id),
    ensures
        remove_id(s, id) == s,
    decreases s.len(),
{
    if s.len() > 0 {
        assert(s.last() != id);
        assert(!s.drop_last().contains(id)) by {
            if s.drop_last().contains(id) {
                let i = choose|i: int| 0 <= i < s.drop_last().len() && s.drop_last()[i] == id;
                assert(s[i] == id);
            }
        }
        lemma_remove_id_absent(s.drop_last(), id);
        assert(remove_id(s, id) =~= s);
    }
}

/// Copy `l`, leaving out every occurrence of `id`.
fn id_list_without(l: &Vec<StatementId>, id: StatementId) -> (r: Vec<StatementId>)
    ensures
        r@ == remove_id(l@, id),
{
    let mut r: Vec<StatementId> = Vec::new();
    let mut i: usize = 0;
    while i < l.len()
        invariant
            i <= l.len(),
            r@ == remove_id(l@.subrange(0, i as int), id),
        decreases l.len() - i,
    {
        proof {
            let sub1 = l@.subrange(0, i + 1);
            assert(sub1.drop_last() =~= l@.subrange(0, i as int));
            assert(sub1.last() == l@[i as int]);
        }
        if !(l[i] == id) {
            r.push(l[i]);
        }
        i = i + 1;
    }
    proof {
        assert(l@.subrange(0, l@.len() as int) =~= l@);
    }
    r
}

impl StatementTree {
    /// Remove the edge from `premise` to `conclusion`. Fails with
    /// `NotFound` if either id is invalid or stale and `NotLinked` if the
    /// edge does not exist; a failed call changes nothing. On success the
    /// edge is gone and `conclusion` falls back to `Unproven`: its old
    /// verdict was issued against a premise set that no longer exists.
    pub fn unlink(&mut self, premise: StatementId, conclusion: StatementId) -> (r: Result<
        (),
        ProofError,
    >)
        requires
            old(self).wf(),
        ensures
            final(self).wf(),
            r is Err ==> *final(self) == *old(self),
            r == (if !old(self).valid(premise) || !old(self).valid(conclusion) {
                Err::<(), ProofError>(ProofError::NotFound)
            } else if !old(self).parents_of(conclusion).contains(premise) {
                Err(ProofError::NotLinked)
            } else {
                Ok(())
            }),
            r is Ok ==> {
                &&& final(self).root == old(self).root
                &&& !final(self).has_edge(premise, conclusion)
                &&& !final(self).parents_of(conclusion).contains(premise)
                &&& !final(self).children_of(premise).contains(conclusion)
                &&& final(self).state_of(conclusion) == ProofState::Unproven
                &&& final(self).text_of(conclusion) == old(self).text_of(conclusion)
                &&& final(self).children_of(conclusion) == old(self).children_of(conclusion)
                &&& final(self).parents_of(conclusion)
                    == remove_id(old(self).parents_of(conclusion), premise)
                &&& final(self).parents_of(premise) == old(self).parents_of(premise)
                &&& final(self).children_of(premise)
                    == remove_id(old(self).children_of(premise), conclusion)
                &&& final(self).text_of(premise) == old(self).text_of(premise)
                &&& final(self).state_of(premise) == old(self).state_of(premise)
                &&& (forall|x: StatementId|
                    x != premise && x != conclusion ==> old(self).unchanged_at(*final(self), x))
                &&& (forall|x: StatementId|
                    #[trigger] final(self).valid(x) == old(self).valid(x))
            },
    {
        if !self.is_valid(premise) || !self.is_valid(conclusion) {
            return Err(ProofError::NotFound);
        }
        let linked = {
            let st = self.statements[conclusion.slot].node.as_ref().unwrap();
            id_list_contains(&st.parents, premise)
        };
        if !linked {
            return Err(ProofError::NotLinked);
        }
        proof {
            if premise.slot == conclusion.slot {
                self.lemma_valid_same_slot(premise, conclusion);
                // a statement never argues for itself: the edge would be a cycle
                let q = seq![premise, conclusion];
                assert(self.has_edge(premise, conclusion));
                assert(self.is_path(q));
                assert(false);
            }
        }
        let gc = self.statements[conclusion.slot].generation;
        let (text_c, parents_c, children_c) = {
            let st = self.statements[conclusion.slot].node.as_ref().unwrap();
            (st.statement.clone(), id_list_without(&st.parents, premise), clone_ids(&st.children))
        };
        self.statements[conclusion.slot] = ArenaSlot {
            generation: gc,
            node: Some(Statement {
                statement: text_c,
                state: ProofState::Unproven,
                parents: parents_c,
                children: children_c,
            }),
        };
        let gp = self.statements[premise.slot].generation;
        let (text_p, state_p, parents_p, children_p) = {
            let st = self.statements[premise.slot].node.as_ref().unwrap();
            (st.statement.clone(), st.state, clone_ids(&st.parents),
             id_list_without(&st.children, conclusion))
        };
        self.statements[premise.slot] = ArenaSlot {
            generation: gp,
            node: Some(Statement {
                statement: text_p,
                state: state_p,
                parents: parents_p,
                children: children_p,
            }),
        };
        proof {
            let pre = *old(self);
            let post = *self;
            let p = premise;
            let c = conclusion;
            assert forall|x: StatementId| x != p && x != c
                implies pre.unchanged_at(post, x) by {
                if x.slot == p.slot || x.slot == c.slot {
                    assert(pre.valid(x) == post.valid(x));
                }
            }
            assert forall|x: StatementId| #[trigger] post.valid(x) == pre.valid(x) by {
            }
            assert(post.parents_of(c) == remove_id(pre.parents_of(c), p));
            assert(post.children_of(p) == remove_id(pre.children_of(p), c));
            lemma_remove_id_contains(pre.parents_of(c), p, p);
            lemma_remove_id_contains(pre.children_of(p), c, c);
            // well-formedness
            assert forall|x: StatementId| #[trigger] post.valid(x)
                implies post.list_valid(post.parents_of(x))
                    && post.list_valid(post.children_of(x))
                    && post.parents_of(x).no_duplicates()
                    && post.children_of(x).no_duplicates() by {
                assert(pre.valid(x));
                assert forall|i: int| 0 <= i < post.parents_of(x).len()
                    implies post.valid(#[trigger] post.parents_of(x)[i]) by {
                    let e = post.parents_of(x)[i];
                    assert(post.parents_of(x).contains(e));
                    if x == c {
                        lemma_remove_id_contains(pre.parents_of(c), p, e);
                    }
                    assert(pre.parents_of(x).contains(e));
                    let ii = choose|ii: int|
                        0 <= ii < pre.parents_of(x).len() && pre.parents_of(x)[ii] == e;
                    assert(pre.valid(pre.parents_of(x)[ii]));
                }
                assert forall|i: int| 0 <= i < post.children_of(x).len()
                    implies post.valid(#[trigger] post.children_of(x)[i]) by {
                    let e = post.children_of(x)[i];
                    assert(post.children_of(x).contains(e));
                    if x == p {
                        lemma_remove_id_contains(pre.children_of(p), c, e);
                    }
                    assert(pre.children_of(x).contains(e));
                    let ii = choose|ii: int|
                        0 <= ii < pre.children_of(x).len() && pre.children_of(x)[ii] == e;
                    assert(pre.valid(pre.children_of(x)[ii]));
                }
                if x == c {
                    lemma_remove_id_no_dup(pre.parents_of(c), p);
                }
                if x == p {
                    lemma_remove_id_no_dup(pre.children_of(p), c);
                }
            }
            assert forall|a: StatementId, b: StatementId|
                #![trigger post.parents_of(b).contains(a)]
                #![trigger post.children_of(a).contains(b)]
                post.valid(a) && post.valid(b)
                implies (post.parents_of(b).contains(a)
                    <==> post.children_of(a).contains(b)) by {
                assert(pre.valid(a) && pre.valid(b));
                assert(pre.parents_of(b).contains(a) <==> pre.children_of(a).contains(b));
                if b == c {
                    lemma_remove_id_contains(pre.parents_of(c), p, a);
                }
                if a == p {
                    lemma_remove_id_contains(pre.children_of(p), c, b);
                }
            }
            assert forall|a: StatementId, b: StatementId|
                #[trigger] post.has_edge(a, b) implies pre.has_edge(a, b) by {
                if b == c {
                    lemma_remove_id_contains(pre.parents_of(c), p, a);
                }
            }
            lemma_edge_subset_acyclic(pre, post);
        }
        Ok(())
    }
}

impl StatementTree {
    /// The slot at `k` in `post` holds the same statement as in `pre`, with
    /// `id` stripped from both neighbour lists.
    pub open spec fn stripped_at(self, post: StatementTree, k: int, id: StatementId) -> bool {
        let s0 = self.statements[k];
        let s1 = post.statements[k];
        &&& s1.generation == s0.generation
        &&& (s1.node is Some <==> s0.node is Some)
        &&& (s0.node is Some ==> {
            &&& s1.node->0.statement@ == s0.node->0.statement@
            &&& s1.node->0.state == s0.node->0.state
            &&& s1.node->0.parents@ == remove_id(s0.node->0.parents@, id)
            &&& s1.node->0.children@ == remove_id(s0.node->0.children@, id)
        })
    }

    /// Delete a statement and strip it from every remaining neighbour list,
    /// so no dangling reference survives. Fails with `NotFound` if the id
    /// is invalid or stale and with `CannotDeleteRoot` for the root — the
    /// session must never be left without a root. A failed call changes
    /// nothing. The freed slot's generation is bumped, so the deleted id
    /// (and any copy of it a client still holds) goes stale rather than
    /// aliasing a later statement.
    pub fn remove_node(&mut self, id: StatementId) -> (r: Result<(), ProofError>)
        requires
            old(self).wf(),
        ensures
            final(self).wf(),
            r is Err ==> *final(self) == *old(self),
            r == (if !old(self).valid(id) {
                Err::<(), ProofError>(ProofError::NotFound)
            } else if id == old(self).root {
                Err(ProofError::CannotDeleteRoot)
            } else {
                Ok(())
            }),
            r is Ok ==> {
                &&& final(self).root == old(self).root
                &&& !final(self).valid(id)
                &&& (forall|x: StatementId| x != id
                    ==> #[trigger] final(self).valid(x) == old(self).valid(x))
                &&& (forall|x: StatementId| #[trigger] final(self).valid(x) ==> {
                    &&& final(self).text_of(x) == old(self).text_of(x)
                    &&& final(self).state_of(x) == old(self).state_of(x)
                    &&& final(self).parents_of(x) == remove_id(old(self).parents_of(x), id)
                    &&& final(self).children_of(x) == remove_id(old(self).children_of(x), id)
                })
                &&& (forall|x: StatementId| #[trigger] final(self).valid(x)
                    ==> !final(self).parents_of(x).contains(id)
                        && !final(self).children_of(x).contains(id))
            },
    {
        if !self.is_valid(id) {
            return Err(ProofError::NotFound);
        }
        if id == self.root {
            return Err(ProofError::CannotDeleteRoot);
        }
        let n = self.statements.len();
        let mut j: usize = 0;
        while j < n
            invariant
                old(self).wf(),
                old(self).valid(id),
                n == self.statements.len(),
                n == old(self).statements.len(),
                self.root == old(self).root,
                j <= n,
                forall|k: int| j <= k < n
                    ==> self.statements[k] == old(self).statements@[k],
                forall|k: int| 0 <= k < j && k != id.slot
                    ==> old(self).stripped_at(*self, k, id),
                id.slot < j ==> self.statements[id.slot as int]
                    == old(self).statements@[id.slot as int],
            decreases n - j,
        {
            let ghost mid = *self;
            if j != id.slot && self.statements[j].node.is_some() {
                let g = self.statements[j].generation;
                let (text, state, parents, children) = {
                    let st = self.statements[j].node.as_ref().unwrap();
                    (st.statement.clone(), st.state, id_list_without(&st.parents, id),
                     id_list_without(&st.children, id))
                };
                self.statements[j] = ArenaSlot {
                    generation: g,
                    node: Some(Statement { statement: text, state, parents, children }),
                };
                proof {
                    assert(old(self).stripped_at(*self, j as int, id));
                    assert forall|k: int| 0 <= k < j && k != id.slot
                        implies old(self).stripped_at(*self, k, id) by {
                        assert(old(self).stripped_at(mid, k, id));
                        assert(self.statements@[k] == mid.statements@[k]);
                    }
                }
            } else if j != id.slot {
                proof {
                    assert(self.statements@[j as int] == old(self).statements@[j as int]);
                    assert(old(self).stripped_at(*self, j as int, id));
                }
            }
            j = j + 1;
        }
        let ghost mid = *self;
        let g = self.statements[id.slot].generation;
        let g_next: u64 = if g == u64::MAX { g } else { g + 1 };
        self.statements[id.slot] = ArenaSlot { generation: g_next, node: None };
        proof {
            let pre = *old(self);
            let post = *self;
            assert forall|k: int| 0 <= k < post.statements.len() && k != id.slot
                implies pre.stripped_at(post, k, id) by {
                assert(pre.stripped_at(mid, k, id));
                assert(post.statements@[k] == mid.statements@[k]);
            }
            assert(!post.valid(id));
            assert forall|x: StatementId| x != id
                implies #[trigger] post.valid(x) == pre.valid(x) by {
                if x.slot == id.slot {
                    if pre.valid(x) {
                        pre.lemma_valid_same_slot(x, id);
                    }
                    assert(!post.valid(x));
                } else if x.slot < post.statements.len() {
                    assert(pre.stripped_at(post, x.slot as int, id));
                }
            }
            assert forall|x: StatementId| #[trigger] post.valid(x) implies {
                &&& pre.valid(x)
                &&& post.text_of(x) == pre.text_of(x)
                &&& post.state_of(x) == pre.state_of(x)
                &&& post.parents_of(x) == remove_id(pre.parents_of(x), id)
                &&& post.children_of(x) == remove_id(pre.children_of(x), id)
            } by {
                assert(x.slot != id.slot);
                assert(x.slot < post.statements.len());
                assert(pre.stripped_at(post, x.slot as int, id));
            }
            assert forall|x: StatementId| #[trigger] post.valid(x)
                implies !post.parents_of(x).contains(id)
                    && !post.children_of(x).contains(id) by {
                lemma_remove_id_contains(pre.parents_of(x), id, id);
                lemma_remove_id_contains(pre.children_of(x), id, id);
            }
            // well-formedness
            assert(pre.root != id);
            assert(post.valid(post.root));
            assert forall|x: StatementId| #[trigger] post.valid(x)
                implies post.list_valid(post.parents_of(x))
                    && post.list_valid(post.children_of(x))
                    && post.parents_of(x).no_duplicates()
                    && post.children_of(x).no_duplicates() by {
                assert(pre.valid(x));
                assert forall|i: int| 0 <= i < post.parents_of(x).len()
                    implies post.valid(#[trigger] post.parents_of(x)[i]) by {
                    let e = post.parents_of(x)[i];
                    assert(post.parents_of(x).contains(e));
                    lemma_remove_id_contains(pre.parents_of(x), id, e);
                    assert(pre.parents_of(x).contains(e) && e != id);
                    let ii = choose|ii: int|
                        0 <= ii < pre.parents_of(x).len() && pre.parents_of(x)[ii] == e;
                    assert(pre.valid(pre.parents_of(x)[ii]));
                }
                assert forall|i: int| 0 <= i < post.children_of(x).len()
                    implies post.valid(#[trigger] post.children_of(x)[i]) by {
                    let e = post.children_of(x)[i];
                    assert(post.children_of(x).contains(e));
                    lemma_remove_id_contains(pre.children_of(x), id, e);
                    assert(pre.children_of(x).contains(e) && e != id);
                    let ii = choose|ii: int|
                        0 <= ii < pre.children_of(x).len() && pre.children_of(x)[ii] == e;
                    assert(pre.valid(pre.children_of(x)[ii]));
                }
                lemma_remove_id_no_dup(pre.parents_of(x), id);
                lemma_remove_id_no_dup(pre.children_of(x), id);
            }
            assert forall|a: StatementId, b: StatementId|
                #![trigger post.parents_of(b).contains(a)]
                #![trigger post.children_of(a).contains(b)]
                post.valid(a) && post.valid(b)
                implies (post.parents_of(b).contains(a)
                    <==> post.children_of(a).contains(b)) by {
                assert(pre.valid(a) && pre.valid(b));
                assert(pre.parents_of(b).contains(a) <==> pre.children_of(a).contains(b));
                lemma_remove_id_contains(pre.parents_of(b), id, a);
                lemma_remove_id_contains(pre.children_of(a), id, b);
            }
            assert forall|a: StatementId, b: StatementId|
                #[trigger] post.has_edge(a, b) implies pre.has_edge(a, b) by {
                lemma_remove_id_contains(pre.parents_of(b), id, a);
                assert(pre.valid(a) && pre.valid(b));
            }
            lemma_edge_subset_acyclic(pre, post);
        }
        Ok(())
    }

    /// A statement is transitively proven within `fuel` recursion steps:
    /// either the judging service accepted it as a standalone fact, or it
    /// is `ImpliedProven` and every one of its (at least one) premises is
    /// itself transitively proven.
    pub open spec fn complete_upto(self, id: StatementId, fuel: nat) -> bool
        decreases fuel,
    {
        if fuel == 0 {
            false
        } else {
            ||| self.state_of(id) == ProofState::DirectlyProven
            ||| (self.state_of(id) == ProofState::ImpliedProven
                && self.parents_of(id).len() > 0
                && (forall|i: int| 0 <= i < self.parents_of(id).len()
                    ==> self.complete_upto(#[trigger] self.parents_of(id)[i],
                        (fuel - 1) as nat)))
        }
    }

    /// A statement is completely proven. In a well-formed graph every
    /// premise chain visits distinct statements, so a depth budget of one
    /// more than the slot count never cuts a real derivation short.
    pub open spec fn node_complete(self, id: StatementId) -> bool {
        self.complete_upto(id, (self.statements.len() + 1) as nat)
    }

    /// The whole session is won: the root is completely proven.
    pub open spec fn complete(self) -> bool {
        self.node_complete(self.root)
    }

    /// A statement with no premises can only be completely proven by a
    /// direct verdict of the judging service.
    pub proof fn lemma_no_premises_needs_direct(self, id: StatementId)
        requires
            self.parents_of(id).len() == 0,
            self.state_of(id) != ProofState::DirectlyProven,
        ensures
            !self.node_complete(id),
    {
    }

    /// A well-formed graph never holds a path from a statement back to
    /// itself: linking rejects exactly the edges that would close a cycle.
    pub proof fn lemma_wf_no_self_path(self, q: Seq<StatementId>)
        requires
            self.wf(),
            self.is_path(q),
            q.len() >= 2,
        ensures
            q.first() != q.last(),
    {
    }

    /// Evaluate `complete_upto(id, fuel + 1)`.
    fn complete_rec(&self, id: StatementId, fuel: usize) -> (r: bool)
        requires
            self.wf(),
            self.valid(id),
        ensures
            r == self.complete_upto(id, (fuel + 1) as nat),
        decreases fuel,
    {
        let state = {
            let st = self.statements[id.slot].node.as_ref().unwrap();
            st.state
        };
        match state {
            ProofState::DirectlyProven => true,
            ProofState::Unproven => false,
            ProofState::ImpliedProven => {
                if fuel == 0 {
                    // the depth budget is spent: no premise can be checked
                    proof {
                        if self.parents_of(id).len() > 0 {
                            assert(!self.complete_upto(self.parents_of(id)[0], 0));
                        }
                    }
                    false
                } else {
                    let parents = {
                        let st = self.statements[id.slot].node.as_ref().unwrap();
                        clone_ids(&st.parents)
                    };
                    if parents.len() == 0 {
                        proof {
                            assert(self.parents_of(id).len() == 0);
                            assert(!self.complete_upto(id, (fuel + 1) as nat));
                        }
                        return false;
                    }
                    let mut i: usize = 0;
                    while i < parents.len()
                        invariant
                            self.wf(),
                            self.valid(id),
                            fuel >= 1,
                            self.state_of(id) == ProofState::ImpliedProven,
                            parents@ == self.parents_of(id),
                            i <= parents.len(),
                            forall|k: int| 0 <= k < i
                                ==> self.complete_upto(#[trigger] self.parents_of(id)[k],
                                    fuel as nat),
                        decreases parents.len() - i,
                    {
                        proof {
                            assert(self.valid(self.parents_of(id)[i as int]));
                        }
                        if !self.complete_rec(parents[i], fuel - 1) {
                            proof {
                                assert(!self.complete_upto(self.parents_of(id)[i as int],
                                    fuel as nat));
                                if self.complete_upto(id, (fuel + 1) as nat) {
                                    assert(self.complete_upto(self.parents_of(id)[i as int],
                                        (((fuel + 1) as nat) - 1) as nat));
                                }
                            }
                            return false;
                        }
                        i = i + 1;
                    }
                    true
                }
            },
        }
    }

    /// Decide whether the session is won: the root is transitively proven
    /// by direct verdicts and implication links. Terminates on any
    /// well-formed graph because premise chains cannot revisit a statement.
    pub fn proof_complete(&self) -> (r: bool)
        requires
            self.wf(),
        ensures
            r == self.complete(),
    {
        self.complete_rec(self.root, self.statements.len())
    }
}

/// A plain snapshot of one statement, as sent to clients.
#[derive(Debug)]
pub struct NodeDTO {
    pub id: StatementId,
    pub statement: String,
    pub state: ProofState,
    pub parents: Vec<StatementId>,
    pub children: Vec<StatementId>,
}

/// A plain snapshot of the whole graph, as sent to clients.
#[derive(Debug)]
pub struct TreeStateDTO {
    pub nodes: Vec<NodeDTO>,
    pub root: StatementId,
}

/// The snapshot lists exactly the graph's statements, faithfully.
pub open spec fn dto_matches(tree: StatementTree, dto: TreeStateDTO) -> bool {
    &&& dto.root == tree.root
    &&& (forall|i: int| 0 <= i < dto.nodes@.len() ==> {
        let nd = #[trigger] dto.nodes@[i];
        &&& tree.valid(nd.id)
        &&& nd.statement@ == tree.text_of(nd.id)
        &&& nd.state == tree.state_of(nd.id)
        &&& nd.parents@ == tree.parents_of(nd.id)
        &&& nd.children@ == tree.children_of(nd.id)
    })
    &&& (forall|id: StatementId| #[trigger] tree.valid(id)
        ==> exists|i: int| 0 <= i < dto.nodes@.len() && dto.nodes@[i].id == id)
}

impl StatementTree {
    /// Take a plain snapshot of the graph for delivery to clients: one
    /// entry per statement, in slot order, plus the root id.
    pub fn as_dto(&self) -> (r: TreeStateDTO)
        requires
            self.wf(),
        ensures
            dto_matches(*self, r),
    {
        let n = self.statements.len();
        let mut nodes: Vec<NodeDTO> = Vec::new();
        let mut j: usize = 0;
        while j < n
            invariant
                self.wf(),
                n == self.statements.len(),
                j <= n,
                forall|i: int| 0 <= i < nodes@.len() ==> {
                    let nd = #[trigger] nodes@[i];
                    &&& self.valid(nd.id)
                    &&& nd.statement@ == self.text_of(nd.id)
                    &&& nd.state == self.state_of(nd.id)
                    &&& nd.parents@ == self.parents_of(nd.id)
                    &&& nd.children@ == self.children_of(nd.id)
                },
                forall|id: StatementId| #[trigger] self.valid(id) && id.slot < j
                    ==> exists|i: int| 0 <= i < nodes@.len() && nodes@[i].id == id,
            decreases n - j,
        {
            if self.statements[j].node.is_some() {
                let g = self.statements[j].generation;
                let id = StatementId { slot: j, generation: g };
                let (text, state, parents, children) = {
                    let st = self.statements[j].node.as_ref().unwrap();
                    (st.statement.clone(), st.state, clone_ids(&st.parents),
                     clone_ids(&st.children))
                };
                let ghost nodes0 = nodes@;
                nodes.push(NodeDTO { id, statement: text, state, parents, children });
                proof {
                    assert forall|x: StatementId| #[trigger] self.valid(x) && x.slot < j + 1
                        implies exists|i: int|
                            0 <= i < nodes@.len() && nodes@[i].id == x by {
                        if x.slot < j {
                            let i = choose|i: int|
                                0 <= i < nodes0.len() && nodes0[i].id == x;
                            assert(nodes@[i].id == x);
                        } else {
                            self.lemma_valid_same_slot(x, id);
                            assert(nodes@[nodes@.len() - 1].id == x);
                        }
                    }
                }
            } else {
                proof {
                    assert forall|x: StatementId| #[trigger] self.valid(x) && x.slot < j + 1
                        implies exists|i: int|
                            0 <= i < nodes@.len() && nodes@[i].id == x by {
                        assert(x.slot != j);
                    }
                }
            }
            j = j + 1;
        }
        TreeStateDTO { nodes, root: self.root }
    }
}

} // verus!





