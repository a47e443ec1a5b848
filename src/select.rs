//! The selector engine: a query is a chain of sub-predicates, read from the
//! outermost ancestor to the node itself. A depth-first traversal tests every
//! node and collects the matches in pre-order, caching each sub-predicate's
//! value per stack depth.
use vstd::prelude::*;
use crate::ast::{Expr, Lit};
use crate::children::{children_of, get_children, lemma_children_smaller, sel_size, Selectable};

verus! {

broadcast use vstd::std_specs::vec::group_vec_axioms;

/// A test on the kind of one node.
#[derive(Debug, Clone, Copy, PartialEq, Eq)]
pub enum NodeTest {
    Program,
    ProgramPart,
    Stmt,
    Expr,
    Block,
    Func,
    VarDecl,
    Pat,
    Prop,
    /// An expression that is a literal of any kind.
    Literal,
    /// An expression that is a numeric literal.
    NumberLiteral,
    /// An expression that is a string literal.
    StringLiteral,
    /// An expression that is an identifier.
    Identifier,
    /// An expression that is a call.
    Call,
}

impl NodeTest {
    pub open spec fn holds(self, s: Selectable) -> bool {
        match self {
            NodeTest::Program => s is Program,
            NodeTest::ProgramPart => s is ProgramPart,
            NodeTest::Stmt => s is Stmt,
            NodeTest::Expr => s is Expr,
            NodeTest::Block => s is Block,
            NodeTest::Func => s is Func,
            NodeTest::VarDecl => s is VarDecl,
            NodeTest::Pat => s is Pat,
            NodeTest::Prop => s is Prop,
            NodeTest::Literal => match s {
                Selectable::Expr(e) => *e is Lit,
                _ => false,
            },
            NodeTest::NumberLiteral => match s {
                Selectable::Expr(e) => match *e {
                    Expr::Lit(Lit::Number(_)) => true,
                    _ => false,
                },
                _ => false,
            },
            NodeTest::StringLiteral => match s {
                Selectable::Expr(e) => match *e {
                    Expr::Lit(Lit::String(_)) => true,
                    _ => false,
                },
                _ => false,
            },
            NodeTest::Identifier => match s {
                Selectable::Expr(e) => *e is Ident,
                _ => false,
            },
            NodeTest::Call => match s {
                Selectable::Expr(e) => *e is Call,
                _ => false,
            },
        }
    }

    pub fn test(&self, s: &Selectable) -> (r: bool)
        ensures
            r == self.holds(*s),
    {
        match self {
            NodeTest::Program => matches!(s, Selectable::Program(_)),
            NodeTest::ProgramPart => matches!(s, Selectable::ProgramPart(_)),
            NodeTest::Stmt => matches!(s, Selectable::Stmt(_)),
            NodeTest::Expr => matches!(s, Selectable::Expr(_)),
            NodeTest::Block => matches!(s, Selectable::Block(_)),
            NodeTest::Func => matches!(s, Selectable::Func(_)),
            NodeTest::VarDecl => matches!(s, Selectable::VarDecl(_)),
            NodeTest::Pat => matches!(s, Selectable::Pat(_)),
            NodeTest::Prop => matches!(s, Selectable::Prop(_)),
            NodeTest::Literal => match s {
                Selectable::Expr(e) => matches!(e, Expr::Lit(_)),
                _ => false,
            },
            NodeTest::NumberLiteral => match s {
                Selectable::Expr(e) => matches!(e, Expr::Lit(Lit::Number(_))),
                _ => false,
            },
            NodeTest::StringLiteral => match s {
                Selectable::Expr(e) => matches!(e, Expr::Lit(Lit::String(_))),
                _ => false,
            },
            NodeTest::Identifier => match s {
                Selectable::Expr(e) => matches!(e, Expr::Ident(_)),
                _ => false,
            },
            NodeTest::Call => match s {
                Selectable::Expr(e) => matches!(e, Expr::Call(_)),
                _ => false,
            },
        }
    }
}

/// One sub-predicate: `chain[0]` tests the node itself, `chain[1]` its
/// immediately preceding sibling, `chain[2]` the sibling before that, and so
/// on (the adjacent-sibling combinator, read right to left).
pub struct Pred {
    pub chain: Vec<NodeTest>,
}

impl Pred {
    /// A sub-predicate that tests the node's kind only.
    pub fn kind(t: NodeTest) -> (r: Pred)
        ensures
            r.chain@ == seq![t],
    {
        Pred { chain: vec![t] }
    }

    /// A node passing `t` whose immediately preceding sibling passes `left`.
    pub fn sib(t: NodeTest, left: Pred) -> (r: Pred)
        ensures
            r.chain@ == seq![t] + left.chain@,
    {
        let mut chain: Vec<NodeTest> = vec![t];
        let mut l = left.chain;
        chain.append(&mut l);
        Pred { chain }
    }
}

/// One entry of the match stack: a node and its position among its parent's
/// children (0 for the root of a traversal).
#[derive(Debug, Clone, Copy)]
pub struct Frame<'a> {
    pub node: Selectable<'a>,
    pub pos: usize,
}

/// Whether a sibling chain holds on `node`, the child at `pos` of `parent`.
pub open spec fn chain_holds(
    chain: Seq<NodeTest>,
    parent: Option<Selectable>,
    node: Selectable,
    pos: int,
) -> bool
    decreases chain.len(),
{
    if chain.len() == 0 {
        true
    } else {
        chain[0].holds(node) && (chain.len() == 1 || match parent {
            None => false,
            Some(p) => 0 < pos && pos - 1 < children_of(p).len() && chain_holds(
                chain.drop_first(),
                parent,
                children_of(p)[pos - 1],
                pos - 1,
            ),
        })
    }
}

pub open spec fn parent_of<'a>(st: Seq<Frame<'a>>) -> Option<Selectable<'a>> {
    if st.len() >= 2 {
        Some(st[st.len() - 2].node)
    } else {
        None
    }
}

/// Each entry of the stack is the child of the entry below it at the
/// position it records.
pub open spec fn stack_ok(st: Seq<Frame>) -> bool {
    forall|d: int|
        1 <= d < st.len() ==> (#[trigger] st[d]).pos < children_of(st[d - 1].node).len()
            && children_of(st[d - 1].node)[st[d].pos as int] == st[d].node
}

/// A sub-predicate evaluated on the top of a stack.
pub open spec fn pred_at(chain: Seq<NodeTest>, st: Seq<Frame>) -> bool {
    st.len() > 0 && chain_holds(chain, parent_of(st), st.last().node, st.last().pos as int)
}

/// The first `i` sub-predicates can be placed, in order, on stack positions
/// among the first `k` (each at or above the position of the next).
pub open spec fn satisfiable(preds: Seq<Seq<NodeTest>>, st: Seq<Frame>, i: nat, k: nat) -> bool
    decreases i + k,
{
    if i == 0 {
        true
    } else if k == 0 {
        false
    } else {
        (pred_at(preds[i - 1], st.subrange(0, k as int)) && satisfiable(preds, st, (i - 1) as nat, k))
            || satisfiable(preds, st, i, (k - 1) as nat)
    }
}

/// A query matches the node on top of a stack: its rightmost sub-predicate
/// holds on the node, and the others hold, in order, on ancestors-or-self.
pub open spec fn query_matches(preds: Seq<Seq<NodeTest>>, st: Seq<Frame>) -> bool {
    preds.len() > 0 && pred_at(preds.last(), st) && satisfiable(
        preds,
        st,
        (preds.len() - 1) as nat,
        st.len(),
    )
}

pub open spec fn child_frame<'a>(st: Seq<Frame<'a>>, j: int) -> Frame<'a> {
    Frame { node: children_of(st.last().node)[j], pos: j as usize }
}

/// The matches in the subtree of the node on top of `st`, in pre-order.
pub open spec fn matches_in<'a>(preds: Seq<Seq<NodeTest>>, st: Seq<Frame<'a>>) -> Seq<
    Selectable<'a>,
>
    decreases sel_size(st.last().node), children_of(st.last().node).len() + 1,
{
    if st.len() == 0 {
        seq![]
    } else {
        (if query_matches(preds, st) {
            seq![st.last().node]
        } else {
            seq![]
        }) + matches_kids(preds, st, children_of(st.last().node).len())
    }
}

/// The matches in the subtrees of the first `j` children of the node on top
/// of `st`, in order.
pub open spec fn matches_kids<'a>(preds: Seq<Seq<NodeTest>>, st: Seq<Frame<'a>>, j: nat) -> Seq<
    Selectable<'a>,
>
    decreases sel_size(st.last().node), j,
{
    if st.len() == 0 || j == 0 || j > children_of(st.last().node).len() {
        seq![]
    } else {
        proof {
            lemma_children_smaller(st.last().node);
        }
        matches_kids(preds, st, (j - 1) as nat) + matches_in(
            preds,
            st.push(child_frame(st, j - 1)),
        )
    }
}

proof fn lemma_satisfiable_monotone(preds: Seq<Seq<NodeTest>>, st: Seq<Frame>, i: nat, k: nat)
    requires
        satisfiable(preds, st, i, k),
    ensures
        satisfiable(preds, st, i, k + 1),
{
}

proof fn lemma_satisfiable_fewer(preds: Seq<Seq<NodeTest>>, st: Seq<Frame>, i: nat, k: nat)
    requires
        i > 0,
        satisfiable(preds, st, i, k),
    ensures
        satisfiable(preds, st, (i - 1) as nat, k),
    decreases k,
{
    if i > 1 && k > 0 {
        if !(pred_at(preds[i - 1], st.subrange(0, k as int)) && satisfiable(
            preds,
            st,
            (i - 1) as nat,
            k,
        )) {
            lemma_satisfiable_fewer(preds, st, i, (k - 1) as nat);
            lemma_satisfiable_monotone(preds, st, (i - 1) as nat, (k - 1) as nat);
        }
    }
}

fn eval_chain(chain: &Vec<NodeTest>, parent: Option<Selectable>, node: Selectable, pos: usize) -> (r:
    bool)
    requires
        parent is Some ==> pos < children_of(parent->0).len(),
    ensures
        r == chain_holds(chain@, parent, node, pos as int),
{
    let kids: Vec<Selectable> = match parent {
        Some(p) => if chain.len() > 1 {
            get_children(&p)
        } else {
            Vec::new()
        },
        None => Vec::new(),
    };
    let mut j: usize = 0;
    let mut cur = node;
    let mut cur_pos = pos;
    assert(chain@.subrange(0, chain@.len() as int) == chain@);
    while j < chain.len()
        invariant
            j <= chain.len(),
            parent is Some && chain.len() > 1 ==> kids@ == children_of(parent->0),
            parent is Some ==> cur_pos < children_of(parent->0).len(),
            chain_holds(chain@, parent, node, pos as int) == chain_holds(
                chain@.subrange(j as int, chain@.len() as int),
                parent,
                cur,
                cur_pos as int,
            ),
        decreases chain.len() - j,
    {
        let ghost rest = chain@.subrange(j as int, chain@.len() as int);
        assert(rest[0] == chain@[j as int]);
        assert(rest.drop_first() == chain@.subrange(j + 1, chain@.len() as int));
        if !chain[j].test(&cur) {
            return false;
        }
        if j + 1 == chain.len() {
            return true;
        }
        match parent {
            None => {
                return false;
            },
            Some(_) => {
                if cur_pos == 0 {
                    return false;
                }
                cur = kids[cur_pos - 1];
                cur_pos = cur_pos - 1;
            },
        }
        j += 1;
    }
    assert(chain@.subrange(j as int, chain@.len() as int).len() == 0);
    true
}

/// Memo table `b` keeps every value known in `a`: same shape, and each known
/// cell unchanged. Cells may only go from unknown to known.
pub open spec fn cache_extends(a: Seq<Seq<Option<bool>>>, b: Seq<Seq<Option<bool>>>) -> bool {
    &&& a.len() == b.len()
    &&& forall|d: int| 0 <= d < a.len() ==> (#[trigger] b[d]).len() == a[d].len()
    &&& forall|d: int, i: int|
        0 <= d < a.len() && 0 <= i < a[d].len() && (#[trigger] a[d][i]) is Some ==> b[d][i]
            == a[d][i]
}

proof fn lemma_cache_extends_trans(
    a: Seq<Seq<Option<bool>>>,
    b: Seq<Seq<Option<bool>>>,
    c: Seq<Seq<Option<bool>>>,
)
    requires
        cache_extends(a, b),
        cache_extends(b, c),
    ensures
        cache_extends(a, c),
{
    assert forall|d: int, i: int|
        0 <= d < a.len() && 0 <= i < a[d].len() && (#[trigger] a[d][i]) is Some implies c[d][i]
        == a[d][i] by {
        assert(b[d][i] == a[d][i]);
    }
}

proof fn lemma_cache_extends_drop_last(a: Seq<Seq<Option<bool>>>, b: Seq<Seq<Option<bool>>>)
    requires
        cache_extends(a, b),
        a.len() > 0,
    ensures
        cache_extends(a.drop_last(), b.drop_last()),
{
    assert forall|d: int, i: int|
        0 <= d < a.drop_last().len() && 0 <= i < a.drop_last()[d].len() && (
        #[trigger] a.drop_last()[d][i]) is Some implies b.drop_last()[d][i] == a.drop_last()[d][i] by {
        assert(a.drop_last()[d] == a[d] && b.drop_last()[d] == b[d]);
    }
    assert forall|d: int| 0 <= d < a.drop_last().len() implies (#[trigger] b.drop_last()[d]).len()
        == a.drop_last()[d].len() by {
        assert(a.drop_last()[d] == a[d] && b.drop_last()[d] == b[d]);
    }
}

/// A compiled query with the traversal state of one `find_matches` call: the
/// match stack and, for each stack depth, the memoized value of each
/// sub-predicate (`None` while unknown).
pub struct PredList<'a> {
    sub_preds: Vec<Pred>,
    sub_pred_cache: Vec<Vec<Option<bool>>>,
    block_stack: Vec<Frame<'a>>,
}

impl<'a> PredList<'a> {
    /// The sub-predicates' chains, outermost first.
    pub closed spec fn preds(&self) -> Seq<Seq<NodeTest>> {
        self.sub_preds@.map_values(|p: Pred| p.chain@)
    }

    pub closed spec fn stack(&self) -> Seq<Frame<'a>> {
        self.block_stack@
    }

    /// The memo table: one row per stack depth, one cell per sub-predicate.
    pub closed spec fn cache(&self) -> Seq<Seq<Option<bool>>> {
        self.sub_pred_cache@.map_values(|row: Vec<Option<bool>>| row@)
    }

    /// The query is not empty, each stack entry is a child of the one below
    /// it, the memo table has one row per stack entry and one cell per
    /// sub-predicate, and every known cell holds the sub-predicate's value on
    /// the stack up to that depth.
    #[verifier::opaque]
    pub closed spec fn wf(&self) -> bool {
        &&& self.sub_preds.len() > 0
        &&& stack_ok(self.block_stack@)
        &&& self.sub_pred_cache.len() == self.block_stack.len()
        &&& forall|d: int|
            0 <= d < self.sub_pred_cache.len() ==> (#[trigger] self.sub_pred_cache@[d])@.len()
                == self.sub_preds.len()
        &&& forall|d: int, i: int|
            0 <= d < self.sub_pred_cache.len() && 0 <= i < self.sub_preds.len() && (
            #[trigger] self.sub_pred_cache@[d]@[i]) is Some ==> self.sub_pred_cache@[d]@[i]->0
                == pred_at(self.preds()[i], self.block_stack@.subrange(0, d + 1))
    }

    /// Compiles a query from its sub-predicates, outermost first.
    pub fn new(sub_preds: Vec<Pred>) -> (r: PredList<'a>)
        requires
            sub_preds.len() > 0,
        ensures
            r.wf(),
            r.stack().len() == 0,
            r.cache().len() == 0,
            r.preds() == sub_preds@.map_values(|p: Pred| p.chain@),
    {
        let r = PredList { sub_preds, block_stack: Vec::new(), sub_pred_cache: Vec::new() };
        proof {
            reveal(PredList::wf);
        }
        r
    }

    /// All nodes of the tree under `selectable` that the query matches, in
    /// pre-order. The result is the one the cache-free definition gives.
    pub fn find_matches(&mut self, selectable: Selectable<'a>) -> (r: Vec<Selectable<'a>>)
        requires
            old(self).wf(),
            old(self).stack().len() == 0,
        ensures
            final(self).wf(),
            final(self).stack().len() == 0,
            final(self).cache().len() == 0,
            final(self).preds() == old(self).preds(),
            r@ == matches_in(old(self).preds(), seq![Frame { node: selectable, pos: 0 }]),
    {
        let mut results: Vec<Selectable<'a>> = Vec::new();
        self.append_matches(selectable, 0, &mut results);
        proof {
            reveal(PredList::wf);
        }
        proof {
            assert(old(self).stack().push(Frame { node: selectable, pos: 0 }) =~= seq![
                Frame { node: selectable, pos: 0 },
            ]);
        }
        results
    }

    /// The value of sub-predicate `i` on the stack's first `k` entries, from
    /// the memo table when known, else computed and recorded.
    fn cached_pred(&mut self, i: usize, k: usize) -> (r: bool)
        requires
            old(self).wf(),
            0 < k <= old(self).stack().len(),
            i < old(self).preds().len(),
        ensures
            final(self).wf(),
            final(self).stack() == old(self).stack(),
            final(self).preds() == old(self).preds(),
            r == pred_at(old(self).preds()[i as int], old(self).stack().subrange(0, k as int)),
            cache_extends(old(self).cache(), final(self).cache()),
            old(self).cache()[k - 1][i as int] is Some ==> final(self).cache() == old(self).cache(),
    {
        proof {
            reveal(PredList::wf);
        }
        let d = k - 1;
        let ghost st = self.block_stack@.subrange(0, k as int);
        assert(st.last() == self.block_stack@[d as int]);
        assert(k >= 2 ==> st[st.len() - 2] == self.block_stack@[k - 2]);
        match self.sub_pred_cache[d][i] {
            Some(b) => b,
            None => {
                let parent = if k >= 2 {
                    Some(self.block_stack[k - 2].node)
                } else {
                    None
                };
                let f = self.block_stack[d];
                let b = eval_chain(&self.sub_preds[i].chain, parent, f.node, f.pos);
                let n = self.sub_pred_cache[d].len();
                let mut row: Vec<Option<bool>> = Vec::new();
                let mut t: usize = 0;
                let ghost cache0 = self.sub_pred_cache@;
                while t < n
                    invariant
                        t <= n,
                        d < cache0.len(),
                        self.sub_pred_cache@ == cache0,
                        n == self.sub_pred_cache@[d as int]@.len(),
                        row@.len() == t,
                        forall|u: int|
                            0 <= u < t ==> #[trigger] row@[u] == if u == i {
                                Some(b)
                            } else {
                                self.sub_pred_cache@[d as int]@[u]
                            },
                    decreases n - t,
                {
                    if t == i {
                        row.push(Some(b));
                    } else {
                        row.push(self.sub_pred_cache[d][t]);
                    }
                    t += 1;
                }
                self.sub_pred_cache.set(d, row);
                proof {
                    reveal(PredList::wf);
                    assert(self.preds()[i as int] == self.sub_preds@[i as int].chain@);
                    assert forall|dd: int, ii: int|
                        0 <= dd < self.sub_pred_cache.len() && 0 <= ii < self.sub_preds.len() && (
                        #[trigger] self.sub_pred_cache@[dd]@[ii]) is Some implies self.sub_pred_cache@[dd]@[ii]->0
                            == pred_at(self.preds()[ii], self.block_stack@.subrange(0, dd + 1)) by {
                        if dd != d {
                            assert(self.sub_pred_cache@[dd] == cache0[dd]);
                        } else if ii != i {
                            assert(self.sub_pred_cache@[dd]@[ii] == cache0[dd]@[ii]);
                        }
                    }
                    let c0 = cache0.map_values(|row: Vec<Option<bool>>| row@);
                    let c1 = self.cache();
                    assert forall|dd: int| 0 <= dd < c0.len() implies (#[trigger] c1[dd]).len()
                        == c0[dd].len() by {
                        if dd != d {
                            assert(self.sub_pred_cache@[dd] == cache0[dd]);
                        }
                    }
                    assert forall|dd: int, ii: int|
                        0 <= dd < c0.len() && 0 <= ii < c0[dd].len() && (#[trigger] c0[dd][ii]) is Some
                        implies c1[dd][ii] == c0[dd][ii] by {
                        if dd != d {
                            assert(self.sub_pred_cache@[dd] == cache0[dd]);
                        } else if ii != i {
                            assert(self.sub_pred_cache@[dd]@[ii] == cache0[dd]@[ii]);
                        }
                    }
                }
                b
            },
        }
    }

    /// Whether the query matches the node on top of the stack.
    #[verifier::rlimit(50)]
    fn run_predicate(&mut self) -> (r: bool)
        requires
            old(self).wf(),
            old(self).stack().len() > 0,
        ensures
            final(self).wf(),
            final(self).stack() == old(self).stack(),
            final(self).preds() == old(self).preds(),
            r == query_matches(old(self).preds(), old(self).stack()),
            cache_extends(old(self).cache(), final(self).cache()),
            !pred_at(old(self).preds().last(), old(self).stack()) ==> final(self).cache() == old(
                self,
            ).cache(),
    {
        proof {
            reveal(PredList::wf);
        }
        let ghost preds = self.preds();
        let ghost st = self.block_stack@;
        let ghost c0 = self.cache();
        let n = self.sub_preds.len();
        let len = self.block_stack.len();
        assert(st.subrange(0, len as int) == st);
        let parent = if len >= 2 {
            Some(self.block_stack[len - 2].node)
        } else {
            None
        };
        let f = self.block_stack[len - 1];
        proof {
            assert(preds.last() == self.sub_preds@[n - 1].chain@);
            if len >= 2 {
                assert(st[len - 1] == f);
            }
        }
        if !eval_chain(&self.sub_preds[n - 1].chain, parent, f.node, f.pos) {
            return false;
        }
        let mut i: usize = n - 1;
        let mut k: usize = len;
        while i > 0 && k > 0
            invariant
                self.wf(),
                self.block_stack@ == st,
                self.preds() == preds,
                cache_extends(c0, self.cache()),
                preds.len() == n,
                i < n,
                k <= len,
                len == st.len(),
                satisfiable(preds, st, (n - 1) as nat, len as nat) == satisfiable(
                    preds,
                    st,
                    i as nat,
                    k as nat,
                ),
            decreases i + k,
        {
            let ghost c1 = self.cache();
            let hit = self.cached_pred(i - 1, k);
            proof {
                lemma_cache_extends_trans(c0, c1, self.cache());
            }
            if hit {
                proof {
                    if satisfiable(preds, st, i as nat, (k - 1) as nat) {
                        lemma_satisfiable_fewer(preds, st, i as nat, (k - 1) as nat);
                        lemma_satisfiable_monotone(preds, st, (i - 1) as nat, (k - 1) as nat);
                    }
                }
                i = i - 1;
            } else {
                k = k - 1;
            }
        }
        i == 0
    }

    /// Enters a node: pushes its frame and a memo row of unknowns.
    fn push_frame(&mut self, frame: Frame<'a>)
        requires
            old(self).wf(),
            old(self).stack().len() > 0 ==> frame.pos < children_of(
                old(self).stack().last().node,
            ).len() && children_of(old(self).stack().last().node)[frame.pos as int] == frame.node,
        ensures
            final(self).wf(),
            final(self).stack() == old(self).stack().push(frame),
            final(self).preds() == old(self).preds(),
            final(self).cache() == old(self).cache().push(
                Seq::new(old(self).preds().len(), |_i: int| None::<bool>),
            ),
    {
        proof {
            reveal(PredList::wf);
        }
        let ghost st0 = self.block_stack@;
        let n = self.sub_preds.len();
        let mut row: Vec<Option<bool>> = Vec::new();
        let mut t: usize = 0;
        while t < n
            invariant
                t <= n,
                row@.len() == t,
                forall|u: int| 0 <= u < t ==> #[trigger] row@[u] is None,
            decreases n - t,
        {
            row.push(None);
            t += 1;
        }
        let ghost c0 = self.cache();
        assert(row@ =~= Seq::new(self.preds().len(), |_i: int| None::<bool>));
        self.block_stack.push(frame);
        self.sub_pred_cache.push(row);
        assert(self.cache() =~= c0.push(Seq::new(self.preds().len(), |_i: int| None::<bool>)));
        let ghost st1 = self.block_stack@;
        assert forall|d: int| 1 <= d < st1.len() implies (#[trigger] st1[d]).pos < children_of(
            st1[d - 1].node,
        ).len() && children_of(st1[d - 1].node)[st1[d].pos as int] == st1[d].node by {
            if d < st0.len() {
                assert(st1[d] == st0[d] && st1[d - 1] == st0[d - 1]);
            }
        }
        assert forall|d: int| 0 <= d < st0.len() implies #[trigger] st1.subrange(0, d + 1)
            == st0.subrange(0, d + 1) by {
            assert(st1.subrange(0, d + 1) =~= st0.subrange(0, d + 1));
        }
    }

    /// Leaves a node: pops its frame and its memo row.
    fn pop_frame(&mut self)
        requires
            old(self).wf(),
            old(self).stack().len() > 0,
        ensures
            final(self).wf(),
            final(self).stack() == old(self).stack().drop_last(),
            final(self).preds() == old(self).preds(),
            final(self).cache() == old(self).cache().drop_last(),
    {
        proof {
            reveal(PredList::wf);
        }
        let ghost st1 = self.block_stack@;
        let ghost c1 = self.cache();
        self.block_stack.pop();
        self.sub_pred_cache.pop();
        assert(self.cache() =~= c1.drop_last());
        let ghost st0 = self.block_stack@;
        assert(st0 =~= st1.drop_last());
        assert forall|d: int| 1 <= d < st0.len() implies (#[trigger] st0[d]).pos < children_of(
            st0[d - 1].node,
        ).len() && children_of(st0[d - 1].node)[st0[d].pos as int] == st0[d].node by {
            assert(st1[d] == st0[d] && st1[d - 1] == st0[d - 1]);
        }
        assert forall|d: int| 0 <= d < st0.len() implies #[trigger] st1.subrange(0, d + 1)
            == st0.subrange(0, d + 1) by {
            assert(st1.subrange(0, d + 1) =~= st0.subrange(0, d + 1));
        }
    }

    /// Visits the subtree of `selectable`, which is child `pos` of the node on
    /// top of the stack, and appends its matches in pre-order.
    fn append_matches(
        &mut self,
        selectable: Selectable<'a>,
        pos: usize,
        matches: &mut Vec<Selectable<'a>>,
    )
        requires
            old(self).wf(),
            old(self).stack().len() > 0 ==> pos < children_of(old(self).stack().last().node).len()
                && children_of(old(self).stack().last().node)[pos as int] == selectable,
        ensures
            final(self).wf(),
            final(self).stack() == old(self).stack(),
            final(self).preds() == old(self).preds(),
            final(matches)@ == old(matches)@ + matches_in(
                old(self).preds(),
                old(self).stack().push(Frame { node: selectable, pos }),
            ),
            cache_extends(old(self).cache(), final(self).cache()),
        decreases sel_size(selectable),
    {
        let ghost c0 = self.cache();
        let ghost preds = self.preds();
        let ghost st0 = self.block_stack@;
        let ghost m0 = matches@;
        self.push_frame(Frame { node: selectable, pos });
        let ghost st1 = self.block_stack@;
        let ghost c1 = self.cache();
        if self.run_predicate() {
            matches.push(selectable);
        }
        let children = get_children(&selectable);
        proof {
            lemma_children_smaller(selectable);
        }
        let ghost own: Seq<Selectable<'a>> = if query_matches(preds, st1) {
            seq![selectable]
        } else {
            seq![]
        };
        let mut j: usize = 0;
        while j < children.len()
            invariant
                self.wf(),
                self.block_stack@ == st1,
                self.preds() == preds,
                cache_extends(c1, self.cache()),
                st1.len() > 0,
                st1.last().node == selectable,
                children@ == children_of(selectable),
                j <= children.len(),
                matches@ == m0 + own + matches_kids(preds, st1, j as nat),
                forall|k: int|
                    0 <= k < children_of(selectable).len() ==> sel_size(
                        #[trigger] children_of(selectable)[k],
                    ) < sel_size(selectable),
            decreases children.len() - j,
        {
            let ghost c2 = self.cache();
            self.append_matches(children[j], j, matches);
            proof {
                lemma_cache_extends_trans(c1, c2, self.cache());
            }
            proof {
                assert(st1.push(Frame { node: children@[j as int], pos: j }) == st1.push(
                    child_frame(st1, j as int),
                ));
                assert(matches_kids(preds, st1, (j + 1) as nat) == matches_kids(
                    preds,
                    st1,
                    j as nat,
                ) + matches_in(preds, st1.push(child_frame(st1, j as int))));
                assert(m0 + own + matches_kids(preds, st1, j as nat) + matches_in(
                    preds,
                    st1.push(child_frame(st1, j as int)),
                ) =~= m0 + own + matches_kids(preds, st1, (j + 1) as nat));
            }
            j += 1;
        }
        let ghost c3 = self.cache();
        self.pop_frame();
        proof {
            lemma_cache_extends_drop_last(c1, c3);
            assert(c1.drop_last() =~= c0);
            assert(st1.drop_last() =~= st0);
            assert(matches_in(preds, st1) == own + matches_kids(
                preds,
                st1,
                children_of(selectable).len(),
            ));
        }
    }
}

// ---------------------------------------------------------------------------
// Laws of the selector engine.

/// The matches of a traversal depend only on the query and the root: two
/// `find_matches` calls with the same sub-predicates from the same root
/// return the same nodes in the same order.
pub proof fn lemma_find_matches_deterministic<'a>(
    a: PredList<'a>,
    b: PredList<'a>,
    root: Selectable<'a>,
    r1: Seq<Selectable<'a>>,
    r2: Seq<Selectable<'a>>,
)
    requires
        a.preds() == b.preds(),
        r1 == matches_in(a.preds(), seq![Frame { node: root, pos: 0 }]),
        r2 == matches_in(b.preds(), seq![Frame { node: root, pos: 0 }]),
    ensures
        r1 == r2,
{
}

/// Pre-order: a node that matches comes first among the matches of its
/// subtree, and the matches of each child's subtree follow those of the
/// children before it.
pub proof fn lemma_preorder<'a>(preds: Seq<Seq<NodeTest>>, st: Seq<Frame<'a>>)
    requires
        st.len() > 0,
    ensures
        query_matches(preds, st) ==> matches_in(preds, st) == seq![st.last().node] + matches_kids(
            preds,
            st,
            children_of(st.last().node).len(),
        ),
        !query_matches(preds, st) ==> matches_in(preds, st) == matches_kids(
            preds,
            st,
            children_of(st.last().node).len(),
        ),
        forall|j: int|
            0 <= j < children_of(st.last().node).len() ==> #[trigger] matches_kids(
                preds,
                st,
                (j + 1) as nat,
            ) == matches_kids(preds, st, j as nat) + matches_in(preds, st.push(child_frame(st, j))),
{
    assert(seq![] + matches_kids(preds, st, children_of(st.last().node).len()) =~= matches_kids(
        preds,
        st,
        children_of(st.last().node).len(),
    ));
}

proof fn lemma_satisfiable_one(preds: Seq<Seq<NodeTest>>, st: Seq<Frame>, k: nat)
    requires
        preds.len() > 0,
    ensures
        satisfiable(preds, st, 1, k) <==> exists|j: int|
            1 <= j <= k && #[trigger] pred_at(preds[0], st.subrange(0, j)),
    decreases k,
{
    if k > 0 {
        lemma_satisfiable_one(preds, st, (k - 1) as nat);
        if pred_at(preds[0], st.subrange(0, k as int)) {
            assert(satisfiable(preds, st, 0, k));
        } else {
            if exists|j: int| 1 <= j <= k && #[trigger] pred_at(preds[0], st.subrange(0, j)) {
                let j = choose|j: int| 1 <= j <= k && #[trigger] pred_at(preds[0], st.subrange(0, j));
                assert(j < k);
            }
        }
    }
}

/// A two-link chain `[p, q]` (descendant combinator) matches a node exactly
/// when `q` holds on the node and `p` holds on an ancestor or on the node
/// itself.
pub proof fn lemma_descendant_pair(p: Seq<NodeTest>, q: Seq<NodeTest>, st: Seq<Frame>)
    requires
        st.len() > 0,
    ensures
        query_matches(seq![p, q], st) <==> (pred_at(q, st) && exists|k: int|
            1 <= k <= st.len() && #[trigger] pred_at(p, st.subrange(0, k))),
{
    let preds = seq![p, q];
    lemma_satisfiable_one(preds, st, st.len());
    assert(preds.last() == q);
    assert(preds[0] == p);
}

} // verus!
