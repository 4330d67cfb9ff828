//! The breadth-first search over one bug pattern: it expands the seed through
//! every flow, gated by the detector's verdicts and by the length and depth
//! budgets, and records every explored candidate in the result tree and the
//! running summary.
//!
//! The search is driven from outside: `next_programs` hands out the two
//! programs of the pending candidate, and `record` takes the detector's raw
//! outcomes back, classifies them, grows the tree and moves to the next
//! candidate. Every `record` strictly decreases `measure`, a finite bound on
//! the evaluations still to come, so any driver loop terminates.

use vstd::prelude::*;
use vstd::arithmetic::power::pow;

use crate::config::{expanded, resolves_sites, Flow, Testcase};
use crate::eval_tree::{find_name, lemma_find_from_props, EvalNode, EvalTree};
use crate::expr::{Expr, Exprs, Program};
use crate::fmt::{identity_repr, lemma_identity_injective};
use crate::oracle::{classified, evaluate, EvalResults, RunOutcome};
use crate::summary::EvalSummary;
use crate::text::clone_bytes;

verus! {

/// The whole cost of one enqueued frontier entry of length `len`: every flow
/// yields one evaluation, and a child still under the length budget becomes a
/// frontier entry of its own.
pub open spec fn vcost(f: nat, max_len: nat, len: nat) -> nat
    decreases max_len - len,
{
    if len + 1 < max_len {
        f * (1 + vcost(f, max_len, len + 1))
    } else {
        f
    }
}

/// What one child of a frontier entry of length `len` may still add to the
/// queue: nothing once the child's length reaches the budget.
pub open spec fn child_cost(f: nat, max_len: nat, len: nat) -> nat {
    if len + 1 < max_len {
        vcost(f, max_len, len + 1)
    } else {
        0
    }
}

/// The cost of the unprocessed queue entries from `from` on.
pub open spec fn queue_cost(f: nat, max_len: nat, q: Seq<Expr>, from: int) -> nat
    decreases q.len() - from,
{
    if from < 0 || from >= q.len() {
        0
    } else {
        vcost(f, max_len, q[from].length as nat) + queue_cost(f, max_len, q, from + 1)
    }
}

proof fn lemma_vcost_unfold(f: nat, max_len: nat, len: nat)
    ensures
        vcost(f, max_len, len) == f * (1 + child_cost(f, max_len, len)),
{
    if len + 1 < max_len {
    } else {
        assert(f * (1 + 0) == f) by (nonlinear_arith);
    }
}

proof fn lemma_queue_cost_push(f: nat, max_len: nat, q: Seq<Expr>, e: Expr, from: int)
    requires
        0 <= from <= q.len(),
    ensures
        queue_cost(f, max_len, q.push(e), from) == queue_cost(f, max_len, q, from) + vcost(
            f,
            max_len,
            e.length as nat,
        ),
    decreases q.len() - from,
{
    if from < q.len() {
        assert(q.push(e)[from] == q[from]);
        lemma_queue_cost_push(f, max_len, q, e, from + 1);
    } else {
        assert(q.push(e)[from] == e);
        assert(queue_cost(f, max_len, q.push(e), from + 1) == 0);
        assert(queue_cost(f, max_len, q, from) == 0);
    }
}

/// The search state over one bug pattern.
pub struct Search {
    pub testcase: Testcase,
    pub flows: Vec<Flow>,
    pub max_length: usize,
    pub max_depth: usize,
    pub tree: EvalTree,
    pub summary: EvalSummary,
    pub pool: Exprs,
    pub queue: Vec<Expr>,
    pub queue_head: usize,
    pub cur: Option<Expr>,
    pub flow_idx: usize,
    pub pending: Option<Expr>,
    pub meta: Ghost<Seq<(nat, nat)>>,
}

impl Search {
    /// No candidate awaits a verdict and none will: the search is over.
    pub open spec fn done(self) -> bool {
        self.pending is None
    }

    /// An entry the search may still expand: strictly under both budgets,
    /// except that the seed is expanded whatever the budgets.
    pub open spec fn expr_bounded(self, e: Expr) -> bool {
        &&& e.length < self.max_length || e.length == 0
        &&& e.depth < self.max_depth || e.depth == 0
    }

    /// `e` stands for a tree node carrying the same identity, and the node's
    /// bookkeeping carries `e`'s length and depth.
    pub open spec fn expr_in_tree(self, e: Expr) -> bool {
        exists|i: int|
            0 <= i < self.tree.nodes@.len() && (#[trigger] self.tree.nodes@[i]).name@ == e.num@
                && self.meta@[i] == (e.length as nat, e.depth as nat)
    }

    /// The tree-side invariants: every node's name is the identity of its own
    /// arena index, every node's recorded length is its distance from the
    /// root, and depth never falls from parent to child.
    pub open spec fn wf_nodes(self) -> bool {
        &&& self.tree.wf()
        &&& self.meta@.len() == self.tree.nodes@.len()
        &&& forall|i: int|
            0 <= i < self.tree.nodes@.len() ==> (#[trigger] self.tree.nodes@[i]).name@
                == identity_repr(i as nat, self.meta@[i].0, self.meta@[i].1)
        &&& forall|i: int|
            0 <= i < self.tree.nodes@.len() ==> (#[trigger] self.meta@[i]).0 == self.tree.level(i)
        &&& forall|i: int|
            0 <= i < self.tree.nodes@.len() ==> ((#[trigger] self.tree.nodes@[i]).parent matches
                Some(p) ==> self.meta@[i].1 >= self.meta@[p as int].1)
    }

    /// The search invariant.
    pub open spec fn wf(self) -> bool {
        let n = self.tree.nodes@.len() as int;
        &&& self.wf_nodes()
        &&& self.queue_head <= self.queue@.len()
        &&& self.flow_idx <= self.flows@.len()
        &&& forall|k: int|
            0 <= k < self.pool.0@.len() ==> (#[trigger] self.pool.0@[k]).depth < usize::MAX
        &&& forall|k: int|
            self.queue_head <= k < self.queue@.len() ==> self.expr_bounded(
                #[trigger] self.queue@[k],
            ) && self.expr_in_tree(self.queue@[k])
        &&& (self.cur matches Some(c) ==> self.expr_bounded(c) && self.expr_in_tree(c))
        &&& ((self.cur is Some || self.queue_head < self.queue@.len()) ==> self.pool.0@.len() > 0)
        &&& (n == 0 ==> self.cur is None && self.queue@.len() == 0 && self.queue_head == 0
            && self.pool.0@.len() == 0)
        &&& (self.pending matches Some(p) ==> (if n == 0 {
            p.length == 0 && p.depth == 0 && p.num@ == identity_repr(0, 0, 0)
        } else {
            (self.cur matches Some(c) && p.length == c.length + 1 && p.depth >= c.depth
                && p.num@ == identity_repr(n as nat, p.length as nat, p.depth as nat) && (exists|
                k: int,
            |
                0 <= k < self.flows@.len() && resolves_sites(
                    expanded(
                        (#[trigger] self.flows@[k]).code@,
                        c.code@,
                        self.testcase.ty@,
                        self.testcase.val@,
                    ),
                    0,
                    p.code@,
                    self.pool.0@,
                )))
        }))
    }

    /// The cost of the flows not yet applied to the current frontier entry.
    pub open spec fn cur_term(self) -> nat {
        match self.cur {
            None => 0,
            Some(c) => if self.flow_idx <= self.flows@.len() {
                ((self.flows@.len() - self.flow_idx) as nat) * (1 + child_cost(
                    self.flows@.len() as nat,
                    self.max_length as nat,
                    c.length as nat,
                ))
            } else {
                0
            },
        }
    }

    /// The cost of the pending candidate: its own evaluation, plus what it may
    /// add to the queue.
    pub open spec fn pend_term(self) -> nat {
        match self.pending {
            None => 0,
            Some(p) => 1 + (if self.tree.nodes@.len() == 0 {
                vcost(self.flows@.len() as nat, self.max_length as nat, 0)
            } else if p.length < self.max_length {
                vcost(self.flows@.len() as nat, self.max_length as nat, p.length as nat)
            } else {
                0
            }),
        }
    }

    /// A finite bound on how many more verdicts the search will take; every
    /// `record` strictly decreases it.
    pub open spec fn measure(self) -> nat {
        self.pend_term() + self.cur_term() + queue_cost(
            self.flows@.len() as nat,
            self.max_length as nat,
            self.queue@,
            self.queue_head as int,
        )
    }

    /// A fresh search for one pattern: the bare seed is the pending candidate,
    /// the tree, the pool and the queue are empty, the counters zero.
    pub fn new(testcase: Testcase, flows: Vec<Flow>, max_length: usize, max_depth: usize, idx: usize)
        -> (s: Search)
        ensures
            s.wf(),
            !s.done(),
            s.tree.nodes@.len() == 0,
            s.summary.idx == idx,
            s.summary.variant_count == 0,
            s.summary.robust_count == 0,
            s.summary.tp_count == 0,
            s.summary.fn_count == 0,
            s.summary.fp_count == 0,
            s.summary.tn_count == 0,
            s.summary.err_count == 0,
            s.testcase == testcase,
            s.flows == flows,
            s.max_length == max_length,
            s.max_depth == max_depth,
            s.measure() == 1 + vcost(flows@.len() as nat, max_length as nat, 0),
    {
        let seed = Expr::source();
        Search {
            testcase,
            flows,
            max_length,
            max_depth,
            tree: EvalTree::new(),
            summary: EvalSummary::new(idx),
            pool: Exprs::new(),
            queue: Vec::new(),
            queue_head: 0,
            cur: None,
            flow_idx: 0,
            pending: Some(seed),
            meta: Ghost(Seq::empty()),
        }
    }

    /// Whether the search is over.
    pub fn is_done(&self) -> (r: bool)
        ensures
            r == self.done(),
    {
        self.pending.is_none()
    }

    /// The positive and negative programs of the pending candidate: the raw
    /// cases for the seed, the candidate's code as carrier for every later
    /// candidate. `None` exactly when the search is done.
    pub fn next_programs(&self) -> (r: Option<(Program, Program)>)
        ensures
            r is Some <==> !self.done(),
            (match (r, self.pending) {
                (Some(programs), Some(p)) => if self.tree.nodes@.len() == 0 {
                    programs.0.code@ == self.testcase.pos.nested_bare() && programs.1.code@
                        == self.testcase.neg.nested_bare()
                } else {
                    programs.0.code@ == self.testcase.pos.nested_with(p.code@) && programs.1.code@
                        == self.testcase.neg.nested_with(p.code@)
                },
                (None, None) => true,
                _ => false,
            }),
    {
        match &self.pending {
            None => None,
            Some(p) => {
                if self.tree.count_nodes() == 0 {
                    Some(self.testcase.cases(None))
                } else {
                    Some(self.testcase.cases(Some(&p.code)))
                }
            },
        }
    }

    /// Takes the next frontier entry from the queue as the current one, with
    /// no flow applied to it yet.
    fn pop_frontier(&mut self)
        requires
            old(self).wf(),
            old(self).pending is None,
            old(self).queue_head < old(self).queue@.len(),
            old(self).cur is None || old(self).flow_idx == old(self).flows@.len(),
        ensures
            final(self).wf(),
            final(self).pending is None,
            final(self).measure() == old(self).measure(),
            final(self).cur is Some,
            final(self).flow_idx == 0,
            final(self).queue_head == old(self).queue_head + 1,
            final(self).queue == old(self).queue,
            final(self).tree == old(self).tree,
            final(self).summary == old(self).summary,
            final(self).pool == old(self).pool,
            final(self).meta == old(self).meta,
            final(self).testcase == old(self).testcase,
            final(self).flows == old(self).flows,
            final(self).max_length == old(self).max_length,
            final(self).max_depth == old(self).max_depth,
    {
        let ghost pre = *old(self);
        let ghost f = self.flows@.len() as nat;
        let ghost l = self.max_length as nat;
        let qlen = self.queue.len();
        let e = self.queue[self.queue_head].duplicate();
        self.cur = Some(e);
        self.flow_idx = 0;
        proof {
            assert(self.queue_head < qlen);
        }
        self.queue_head = self.queue_head + 1;
        proof {
            let qe = pre.queue@[pre.queue_head as int];
            lemma_vcost_unfold(f, l, qe.length as nat);
            assert(self.cur_term() == f * (1 + child_cost(f, l, qe.length as nat)));
            assert(queue_cost(f, l, pre.queue@, pre.queue_head as int) == vcost(
                f,
                l,
                qe.length as nat,
            ) + queue_cost(f, l, pre.queue@, pre.queue_head + 1));
            if pre.cur is Some {
                let c0 = pre.cur.unwrap();
                let y: nat = 1 + child_cost(f, l, c0.length as nat);
                assert(((f - pre.flow_idx) as nat) * y == 0) by (nonlinear_arith)
                    requires
                        f == pre.flow_idx,
                ;
            }
            assert(pre.cur_term() == 0);
            assert(self.measure() == pre.measure());
            assert(pre.expr_in_tree(qe));
            let iw = choose|i: int|
                0 <= i < pre.tree.nodes@.len() && (#[trigger] pre.tree.nodes@[i]).name@ == qe.num@
                    && pre.meta@[i] == (qe.length as nat, qe.depth as nat);
            assert(self.tree.nodes@[iw].name@ == self.cur.unwrap().num@);
            assert(self.expr_in_tree(self.cur.unwrap()));
        }
    }

    /// Moves to the next candidate: applies the next flow to the current
    /// frontier entry, taking a fresh entry from the queue when the flows are
    /// exhausted; leaves no pending candidate when the frontier is empty.
    fn advance(&mut self)
        requires
            old(self).wf(),
            old(self).pending is None,
            old(self).tree.nodes@.len() > 0,
        ensures
            final(self).wf(),
            final(self).measure() == old(self).measure(),
            final(self).tree == old(self).tree,
            final(self).summary == old(self).summary,
            final(self).pool == old(self).pool,
            final(self).meta == old(self).meta,
            final(self).testcase == old(self).testcase,
            final(self).flows == old(self).flows,
            final(self).max_length == old(self).max_length,
            final(self).max_depth == old(self).max_depth,
            (old(self).cur is None && old(self).queue_head == old(self).queue@.len())
                ==> final(self).pending is None,
            (old(self).flows@.len() > 0 && (old(self).queue_head < old(self).queue@.len() || (
            old(self).cur is Some && old(self).flow_idx < old(self).flows@.len())))
                ==> final(self).pending is Some,
    {
        while (self.cur.is_none() || self.flow_idx >= self.flows.len()) && self.queue_head
            < self.queue.len()
            invariant
                self.wf(),
                self.pending is None,
                self.tree.nodes@.len() > 0,
                self.measure() == old(self).measure(),
                self.tree == old(self).tree,
                self.summary == old(self).summary,
                self.pool == old(self).pool,
                self.meta == old(self).meta,
                self.testcase == old(self).testcase,
                self.flows == old(self).flows,
                self.max_length == old(self).max_length,
                self.max_depth == old(self).max_depth,
                (old(self).cur is None && old(self).queue_head == old(self).queue@.len()) ==> (
                self.cur is None && self.queue_head == self.queue@.len()),
                (old(self).flows@.len() > 0 && (old(self).queue_head < old(self).queue@.len() || (
                old(self).cur is Some && old(self).flow_idx < old(self).flows@.len()))) ==> (
                self.queue_head < self.queue@.len() || (self.cur is Some && self.flow_idx
                    < self.flows@.len())),
            decreases self.queue@.len() - self.queue_head,
        {
            self.pop_frontier();
        }
        if self.cur.is_some() && self.flow_idx < self.flows.len() {
            let ghost pre = *self;
            let ghost f = self.flows@.len() as nat;
            let ghost l = self.max_length as nat;
            let num = self.tree.count_nodes();
            let p = match &self.cur {
                Some(c) => self.flows[self.flow_idx].into_expr(num, c, &self.pool, &self.testcase),
                None => vstd::pervasive::unreached(),
            };
            self.pending = Some(p);
            self.flow_idx = self.flow_idx + 1;
            proof {
                let c = pre.cur.unwrap();
                assert(resolves_sites(
                    expanded(
                        self.flows@[pre.flow_idx as int].code@,
                        c.code@,
                        self.testcase.ty@,
                        self.testcase.val@,
                    ),
                    0,
                    p.code@,
                    self.pool.0@,
                ));
                let x: nat = 1 + child_cost(f, l, c.length as nat);
                let k: nat = (f - pre.flow_idx) as nat;
                assert(k >= 1);
                assert(k * x == (k - 1) as nat * x + x) by (nonlinear_arith)
                    requires
                        k >= 1,
                ;
                assert(pre.cur_term() == k * x);
                assert(self.cur_term() == (k - 1) as nat * x);
                assert(p.length == c.length + 1);
                assert(self.pend_term() == x);
                assert(self.measure() == pre.measure());
            }
        } else {
            let ghost pre = *self;
            self.cur = None;
            proof {
                if pre.cur is Some {
                    let c = pre.cur.unwrap();
                    let y: nat = 1 + child_cost(
                        pre.flows@.len() as nat,
                        pre.max_length as nat,
                        c.length as nat,
                    );
                    assert(pre.flow_idx == pre.flows@.len());
                    assert(((pre.flows@.len() - pre.flow_idx) as nat) * y == 0)
                        by (nonlinear_arith)
                        requires
                            pre.flow_idx == pre.flows@.len(),
                    ;
                }
                assert(pre.cur_term() == 0);
                assert(self.cur_term() == 0);
                assert(self.measure() == pre.measure());
            }
        }
    }

    /// Records the seed's verdict as the root of the tree: a seed whose
    /// verdict is not robust ends the search at once; a robust seed becomes
    /// the whole frontier.
    #[verifier::rlimit(50)]
    fn record_seed(&mut self, res: EvalResults)
        requires
            old(self).wf(),
            !old(self).done(),
            old(self).tree.nodes@.len() == 0,
            old(self).summary.can_count(),
            res.wf(),
        ensures
            final(self).wf(),
            final(self).measure() < old(self).measure(),
            final(self).summary == old(self).summary.counted(res),
            final(self).tree.nodes@.len() == 1,
            final(self).tree.nodes@[0].res == res,
            final(self).tree.nodes@[0].name@ == old(self).pending.unwrap().num@,
            final(self).tree.nodes@[0].children@.len() == 0,
            !res.robust() ==> final(self).done(),
            (res.robust() && old(self).flows@.len() > 0) ==> !final(self).done(),
            final(self).testcase == old(self).testcase,
            final(self).flows == old(self).flows,
            final(self).max_length == old(self).max_length,
            final(self).max_depth == old(self).max_depth,
    {
        let ghost pre = *old(self);
        let ghost f = self.flows@.len() as nat;
        let ghost l = self.max_length as nat;
        let p = match self.pending.take() {
            Some(p) => p,
            None => vstd::pervasive::unreached(),
        };
        let name = clone_bytes(&p.num);
        let root = EvalNode::new(name, res);
        self.tree.set_root(root);
        proof {
            self.meta@ = self.meta@.push((p.length as nat, p.depth as nat));
        }
        self.summary.count(&res);
        if res.is_robust() {
            proof {
                lemma_queue_cost_push(f, l, self.queue@, p, self.queue_head as int);
            }
            let dup = p.duplicate();
            self.pool.push(dup);
            self.queue.push(p);
        }
        proof {
            assert(self.tree.nodes@.len() == 1);
            assert(self.meta@[0] == (0nat, 0nat));
            assert(self.tree.level(0) == 0);
            assert(self.wf_nodes());
            assert(self.wf());
            assert(pre.pend_term() == 1 + vcost(f, l, 0));
            assert(queue_cost(f, l, pre.queue@, pre.queue_head as int) == 0);
            assert(pre.measure() == 1 + vcost(f, l, 0));
            assert(self.measure() <= vcost(f, l, 0));
        }
        self.advance();
    }

    /// Grows the tree by one node: the candidate `p`, attached under the
    /// current frontier entry and carrying the verdict `res`.
    #[verifier::rlimit(100)]
    fn attach_child(&mut self, p: &Expr, res: EvalResults)
        requires
            old(self).wf(),
            old(self).pending is None,
            old(self).tree.nodes@.len() > 0,
            (old(self).cur matches Some(c) && p.length == c.length + 1 && p.depth >= c.depth
                && p.num@ == identity_repr(
                old(self).tree.nodes@.len() as nat,
                p.length as nat,
                p.depth as nat,
            )),
        ensures
            final(self).wf(),
            final(self).pending is None,
            final(self).measure() == old(self).measure(),
            final(self).tree.nodes@.len() == old(self).tree.nodes@.len() + 1,
            final(self).tree.nodes@[old(self).tree.nodes@.len() as int].res == res,
            final(self).tree.nodes@[old(self).tree.nodes@.len() as int].name@ == p.num@,
            final(self).tree.nodes@[old(self).tree.nodes@.len() as int].children@.len() == 0,
            forall|i: int|
                0 <= i < old(self).tree.nodes@.len()
                    ==> ((#[trigger] final(self).tree.nodes@[i]).name == old(self).tree.nodes@[i].name
                    && final(self).tree.nodes@[i].res == old(self).tree.nodes@[i].res
                    && final(self).tree.nodes@[i].parent == old(self).tree.nodes@[i].parent),
            exists|pf: int|
                0 <= pf < old(self).tree.nodes@.len()
                    && (#[trigger] final(self).tree.nodes@[pf]).children@
                    == old(self).tree.nodes@[pf].children@.push(old(self).tree.nodes@.len() as usize)
                    && (forall|i: int|
                    0 <= i < old(self).tree.nodes@.len() && i != pf
                        ==> (#[trigger] final(self).tree.nodes@[i]).children@
                        == old(self).tree.nodes@[i].children@),
            final(self).meta@ == old(self).meta@.push((p.length as nat, p.depth as nat)),
            final(self).expr_in_tree(*p),
            final(self).summary == old(self).summary,
            final(self).pool == old(self).pool,
            final(self).queue == old(self).queue,
            final(self).queue_head == old(self).queue_head,
            final(self).cur == old(self).cur,
            final(self).flow_idx == old(self).flow_idx,
            final(self).testcase == old(self).testcase,
            final(self).flows == old(self).flows,
            final(self).max_length == old(self).max_length,
            final(self).max_depth == old(self).max_depth,
    {
        let ghost pre = *old(self);
        let ghost c = pre.cur.unwrap();
        let ghost m = pre.tree.nodes@.len() as int;
        proof {
            assert(pre.expr_in_tree(c));
            let iw = choose|i: int|
                0 <= i < pre.tree.nodes@.len() && (#[trigger] pre.tree.nodes@[i]).name@ == c.num@
                    && pre.meta@[i] == (c.length as nat, c.depth as nat);
            lemma_find_from_props(pre.tree.nodes@, c.num@, 0);
            if find_name(pre.tree.nodes@, c.num@) < 0 {
                assert(pre.tree.nodes@[iw].name@ != c.num@);
            }
            assert(find_name(pre.tree.nodes@, c.num@) >= 0);
        }
        let pname = match &self.cur {
            Some(cr) => clone_bytes(&cr.num),
            None => vstd::pervasive::unreached(),
        };
        let name = clone_bytes(&p.num);
        let r = self.tree.add_child(&pname, name, res);
        match r {
            Ok(()) => {},
            Err(_) => {
                proof {
                    assert(false);
                }
            },
        }
        proof {
            self.meta@ = self.meta@.push((p.length as nat, p.depth as nat));
        }
        proof {
            lemma_attach_preserves_wf(pre, *self, *p, res);
        }
    }

    /// Attaches the pending candidate's verdict under the current frontier
    /// entry, and keeps the candidate for expansion exactly when the verdict
    /// is robust and both budgets still hold.
    #[verifier::rlimit(50)]
    fn record_child(&mut self, res: EvalResults)
        requires
            old(self).wf(),
            !old(self).done(),
            old(self).tree.nodes@.len() > 0,
            old(self).summary.can_count(),
            res.wf(),
        ensures
            final(self).wf(),
            final(self).measure() < old(self).measure(),
            final(self).summary == old(self).summary.counted(res),
            final(self).tree.nodes@.len() == old(self).tree.nodes@.len() + 1,
            final(self).tree.nodes@[old(self).tree.nodes@.len() as int].res == res,
            final(self).tree.nodes@[old(self).tree.nodes@.len() as int].name@ == old(
                self,
            ).pending.unwrap().num@,
            final(self).tree.nodes@[old(self).tree.nodes@.len() as int].children@.len() == 0,
            forall|i: int|
                0 <= i < old(self).tree.nodes@.len()
                    ==> ((#[trigger] final(self).tree.nodes@[i]).name == old(self).tree.nodes@[i].name
                    && final(self).tree.nodes@[i].res == old(self).tree.nodes@[i].res
                    && final(self).tree.nodes@[i].parent == old(self).tree.nodes@[i].parent),
            exists|pf: int|
                0 <= pf < old(self).tree.nodes@.len()
                    && (#[trigger] final(self).tree.nodes@[pf]).children@
                    == old(self).tree.nodes@[pf].children@.push(old(self).tree.nodes@.len() as usize)
                    && (forall|i: int|
                    0 <= i < old(self).tree.nodes@.len() && i != pf
                        ==> (#[trigger] final(self).tree.nodes@[i]).children@
                        == old(self).tree.nodes@[i].children@),
            final(self).testcase == old(self).testcase,
            final(self).flows == old(self).flows,
            final(self).max_length == old(self).max_length,
            final(self).max_depth == old(self).max_depth,
    {
        let ghost pre = *old(self);
        let ghost f = self.flows@.len() as nat;
        let ghost l = self.max_length as nat;
        let p = match self.pending.take() {
            Some(p) => p,
            None => vstd::pervasive::unreached(),
        };
        self.attach_child(&p, res);
        self.summary.count(&res);
        let keep = res.is_robust();
        let ghost mid = *self;
        if keep && p.length < self.max_length && p.depth < self.max_depth {
            proof {
                lemma_queue_cost_push(f, l, self.queue@, p, self.queue_head as int);
            }
            let dup = p.duplicate();
            self.pool.push(dup);
            self.queue.push(p);
            proof {
                assert(self.expr_bounded(p));
                assert(self.expr_in_tree(p));
                assert forall|k: int|
                    self.queue_head <= k < self.queue@.len() implies self.expr_bounded(
                    #[trigger] self.queue@[k],
                ) && self.expr_in_tree(self.queue@[k]) by {
                    if k < mid.queue@.len() {
                        assert(self.queue@[k] == mid.queue@[k]);
                        assert(mid.expr_bounded(mid.queue@[k]));
                        assert(mid.expr_in_tree(mid.queue@[k]));
                    } else {
                        assert(self.queue@[k] == p);
                    }
                }
            }
        }
        proof {
            assert(self.wf());
            // One evaluation was spent; what the queue gained is at most what
            // the pending term promised.
            assert(pre.pend_term() == 1 + (if p.length < pre.max_length {
                vcost(f, l, p.length as nat)
            } else {
                0nat
            }));
            assert(self.cur_term() == pre.cur_term());
            assert(self.measure() + 1 <= pre.measure());
        }
        self.advance();
    }

    /// Takes the detector's two raw outcomes for the pending candidate:
    /// classifies them, records the verdict in the tree and the summary, keeps
    /// the candidate for further expansion exactly when the verdict is robust
    /// and both budgets still hold, and moves on to the next candidate. A
    /// seed whose verdict is not robust ends the search with the root as the
    /// only node; a robust seed with a non-empty flow library keeps the search
    /// going. Every call strictly decreases `measure`, so a driver loop
    /// terminates.
    pub fn record(&mut self, pos: &RunOutcome, neg: &RunOutcome)
        requires
            old(self).wf(),
            !old(self).done(),
            old(self).summary.can_count(),
        ensures
            final(self).wf(),
            final(self).measure() < old(self).measure(),
            final(self).summary == old(self).summary.counted(classified(*pos, *neg)),
            final(self).tree.nodes@.len() == old(self).tree.nodes@.len() + 1,
            final(self).tree.nodes@[old(self).tree.nodes@.len() as int].res == classified(
                *pos,
                *neg,
            ),
            final(self).tree.nodes@[old(self).tree.nodes@.len() as int].name@ == old(
                self,
            ).pending.unwrap().num@,
            final(self).tree.nodes@[old(self).tree.nodes@.len() as int].children@.len() == 0,
            forall|i: int|
                0 <= i < old(self).tree.nodes@.len()
                    ==> ((#[trigger] final(self).tree.nodes@[i]).name == old(self).tree.nodes@[i].name
                    && final(self).tree.nodes@[i].res == old(self).tree.nodes@[i].res
                    && final(self).tree.nodes@[i].parent == old(self).tree.nodes@[i].parent),
            old(self).tree.nodes@.len() > 0 ==> (exists|pf: int|
                0 <= pf < old(self).tree.nodes@.len()
                    && (#[trigger] final(self).tree.nodes@[pf]).children@
                    == old(self).tree.nodes@[pf].children@.push(old(self).tree.nodes@.len() as usize)
                    && (forall|i: int|
                    0 <= i < old(self).tree.nodes@.len() && i != pf
                        ==> (#[trigger] final(self).tree.nodes@[i]).children@
                        == old(self).tree.nodes@[i].children@)),
            (old(self).tree.nodes@.len() == 0 && !classified(*pos, *neg).robust())
                ==> (final(self).done() && final(self).tree.nodes@.len() == 1),
            (old(self).tree.nodes@.len() == 0 && classified(*pos, *neg).robust()
                && old(self).flows@.len() > 0) ==> !final(self).done(),
            final(self).testcase == old(self).testcase,
            final(self).flows == old(self).flows,
            final(self).max_length == old(self).max_length,
            final(self).max_depth == old(self).max_depth,
    {
        let res = evaluate(pos, neg);
        if self.tree.count_nodes() == 0 {
            self.record_seed(res);
        } else {
            self.record_child(res);
        }
    }
}

/// After one child is attached under the current frontier entry, the whole
/// search invariant holds again, and the measure is unchanged.
#[verifier::rlimit(100)]
proof fn lemma_attach_preserves_wf(pre: Search, post: Search, p: Expr, res: EvalResults)
    requires
        pre.wf(),
        pre.pending is None,
        pre.tree.nodes@.len() > 0,
        (pre.cur matches Some(c) && p.length == c.length + 1 && p.depth >= c.depth && p.num@
            == identity_repr(pre.tree.nodes@.len() as nat, p.length as nat, p.depth as nat)),
        post.tree.wf(),
        ({
            let c = pre.cur.unwrap();
            let pf = find_name(pre.tree.nodes@, c.num@);
            let m = pre.tree.nodes@.len() as int;
            &&& pf >= 0
            &&& post.tree.nodes@.len() == m + 1
            &&& post.tree.nodes@[m].name@ == p.num@
            &&& post.tree.nodes@[m].res == res
            &&& post.tree.nodes@[m].children@.len() == 0
            &&& post.tree.nodes@[m].parent == Some(pf as usize)
            &&& (forall|k: int| 0 <= k < m && k != pf ==> post.tree.nodes@[k] == pre.tree.nodes@[k])
            &&& post.tree.nodes@[pf].name == pre.tree.nodes@[pf].name
            &&& post.tree.nodes@[pf].res == pre.tree.nodes@[pf].res
            &&& post.tree.nodes@[pf].parent == pre.tree.nodes@[pf].parent
        }),
        post.meta@ == pre.meta@.push((p.length as nat, p.depth as nat)),
        post.pending is None,
        post.pool == pre.pool,
        post.queue == pre.queue,
        post.queue_head == pre.queue_head,
        post.cur == pre.cur,
        post.flow_idx == pre.flow_idx,
        post.flows == pre.flows,
        post.max_length == pre.max_length,
        post.max_depth == pre.max_depth,
    ensures
        post.wf(),
        post.expr_in_tree(p),
        post.measure() == pre.measure(),
{
    broadcast use vstd::std_specs::vec::axiom_spec_len;

    let c = pre.cur.unwrap();
    let m = pre.tree.nodes@.len() as int;
    assert(vstd::std_specs::vec::spec_vec_len(&pre.tree.nodes) == pre.tree.nodes@.len());
    assert(m <= usize::MAX);
    let pf = find_name(pre.tree.nodes@, c.num@);
    lemma_find_from_props(pre.tree.nodes@, c.num@, 0);
    assert(0 <= pf < m);
    assert(pf as usize as int == pf);
    let iw = choose|i: int|
        0 <= i < pre.tree.nodes@.len() && (#[trigger] pre.tree.nodes@[i]).name@ == c.num@
            && pre.meta@[i] == (c.length as nat, c.depth as nat);
    lemma_identity_injective(
        pf as nat,
        pre.meta@[pf].0,
        pre.meta@[pf].1,
        iw as nat,
        pre.meta@[iw].0,
        pre.meta@[iw].1,
    );
    assert(pf == iw);
    assert(pre.meta@[pf] == (c.length as nat, c.depth as nat));
    // Parent links of the old nodes are untouched, so their levels are
    // untouched.
    assert forall|k: int|
        0 <= k < m implies (#[trigger] post.tree.nodes@[k]).parent
        == pre.tree.nodes@[k].parent by {
        if k != pf {
            assert(post.tree.nodes@[k] == pre.tree.nodes@[k]);
        }
    }
    assert forall|i: int| 0 <= i < m implies post.tree.level(i) == pre.tree.level(i) by {
        EvalTree::lemma_level_unchanged(pre.tree, post.tree, i);
    }
    // The new node sits one level under its parent, which carries the
    // carrier's length.
    assert(post.tree.nodes@[m].parent == Some(pf as usize));
    assert(post.tree.level(m) == 1 + post.tree.level(pf));
    assert(post.tree.level(m) == p.length as nat);
    assert(post.meta@[m] == (p.length as nat, p.depth as nat));
    assert forall|i: int|
        0 <= i < m + 1 implies (#[trigger] post.tree.nodes@[i]).name@ == identity_repr(
        i as nat,
        post.meta@[i].0,
        post.meta@[i].1,
    ) by {
        if i < m {
            if i != pf {
                assert(post.tree.nodes@[i] == pre.tree.nodes@[i]);
            }
            assert(post.tree.nodes@[i].name@ == pre.tree.nodes@[i].name@);
            assert(post.meta@[i] == pre.meta@[i]);
        } else {
            assert(post.tree.nodes@[m].name@ == p.num@);
        }
    }
    assert forall|i: int| 0 <= i < m + 1 implies (#[trigger] post.meta@[i]).0
        == post.tree.level(i) by {
        if i < m {
            assert(post.meta@[i] == pre.meta@[i]);
        }
    }
    assert forall|i: int|
        0 <= i < m + 1 implies ((#[trigger] post.tree.nodes@[i]).parent matches Some(q)
        ==> post.meta@[i].1 >= post.meta@[q as int].1) by {
        if i < m {
            assert(post.tree.nodes@[i].parent == pre.tree.nodes@[i].parent);
            if pre.tree.nodes@[i].parent is Some {
                let q = pre.tree.nodes@[i].parent.unwrap();
                assert(pre.meta@[i].1 >= pre.meta@[q as int].1);
                assert(post.meta@[i] == pre.meta@[i]);
                assert(post.meta@[q as int] == pre.meta@[q as int]);
            }
        } else {
            assert(post.meta@[m].1 == p.depth as nat);
            assert(post.meta@[pf] == pre.meta@[pf]);
            assert(p.depth >= c.depth);
        }
    }
    assert(post.wf_nodes());
    // The frontier entries still stand for their nodes in the grown
    // tree.
    assert forall|k: int|
        post.queue_head <= k < post.queue@.len() implies post.expr_bounded(
        #[trigger] post.queue@[k],
    ) && post.expr_in_tree(post.queue@[k]) by {
        assert(pre.expr_bounded(pre.queue@[k]));
        assert(pre.expr_in_tree(pre.queue@[k]));
        let jw = choose|i: int|
            0 <= i < pre.tree.nodes@.len() && (#[trigger] pre.tree.nodes@[i]).name@
                == pre.queue@[k].num@ && pre.meta@[i] == (
            pre.queue@[k].length as nat,
            pre.queue@[k].depth as nat,
            );
        assert(post.tree.nodes@[jw].name@ == post.queue@[k].num@);
        assert(post.meta@[jw] == (
            post.queue@[k].length as nat,
            post.queue@[k].depth as nat,
        ));
    }
    assert(post.cur == pre.cur);
    assert(post.expr_in_tree(c)) by {
        assert(post.tree.nodes@[pf].name@ == c.num@);
        assert(post.meta@[pf] == (c.length as nat, c.depth as nat));
    }
    assert(post.expr_in_tree(p)) by {
        assert(post.tree.nodes@[m].name@ == p.num@);
        assert(post.meta@[m] == (p.length as nat, p.depth as nat));
    }
    assert(post.wf());
    assert(post.cur_term() == pre.cur_term());
    assert(post.measure() == pre.measure());
}

/// Along every tree path the recorded length counts exactly the flow
/// applications since the seed: each node's length is its distance from the
/// root, its identity encodes that length, and a child's depth never falls
/// below its parent's.
pub proof fn lemma_length_counts_flow_applications(s: Search, i: int)
    requires
        s.wf(),
        0 <= i < s.tree.nodes@.len(),
    ensures
        s.meta@[i].0 == s.tree.level(i),
        s.tree.nodes@[i].name@ == identity_repr(i as nat, s.tree.level(i), s.meta@[i].1),
        s.tree.nodes@[i].parent matches Some(p) ==> s.meta@[i].1 >= s.meta@[p as int].1,
{
}

/// No two nodes of one pattern's tree share an identity: every node's name
/// encodes its own discovery index, and distinct indices render distinctly.
pub proof fn lemma_identities_unique(s: Search, i: int, j: int)
    requires
        s.wf(),
        0 <= i < s.tree.nodes@.len(),
        0 <= j < s.tree.nodes@.len(),
        i != j,
    ensures
        s.tree.nodes@[i].name@ != s.tree.nodes@[j].name@,
{
    if s.tree.nodes@[i].name@ == s.tree.nodes@[j].name@ {
        lemma_identity_injective(
            i as nat,
            s.meta@[i].0,
            s.meta@[i].1,
            j as nat,
            s.meta@[j].0,
            s.meta@[j].1,
        );
    }
}

/// The cost of a frontier entry stays under `pow(f + 1, budget + 1)`, where
/// `budget` is how far its length still is from the length bound.
proof fn lemma_vcost_bound(f: nat, max_len: nat, len: nat)
    ensures
        vcost(f, max_len, len) < pow(
            f as int + 1,
            (if len < max_len {
                (max_len - len) as nat
            } else {
                0nat
            }) + 1,
        ),
    decreases max_len - len,
{
    reveal(pow);
    let b: nat = (if len < max_len {
        (max_len - len) as nat
    } else {
        0nat
    }) + 1;
    vstd::arithmetic::power::lemma_pow_positive(f as int + 1, (b - 1) as nat);
    assert(pow(f as int + 1, b) == (f as int + 1)
        * pow(f as int + 1, (b - 1) as nat));
    if len + 1 < max_len {
        lemma_vcost_bound(f, max_len, len + 1);
        let pw = pow(f as int + 1, (b - 1) as nat);
        assert(1 + vcost(f, max_len, len + 1) <= pw);
        assert(f * (1 + vcost(f, max_len, len + 1)) <= f * pw) by (nonlinear_arith)
            requires
                1 + vcost(f, max_len, len + 1) <= pw,
                f >= 0,
        ;
        assert(f * pw < (f + 1) * pw) by (nonlinear_arith)
            requires
                pw >= 1,
                f >= 0,
        ;
    } else {
        assert(pow(f as int + 1, (b - 1) as nat) >= 1);
        assert(f < (f + 1) * pow(f as int + 1, (b - 1) as nat))
            by (nonlinear_arith)
            requires
                pow(f as int + 1, (b - 1) as nat) >= 1,
                f >= 0,
        ;
    }
}

/// The search over one pattern is finite: a fresh search's measure — which
/// every recorded verdict strictly decreases, by the contract of `record` —
/// is itself bounded by `pow(F + 1, L + 1)` for a flow library of size `F`
/// and a length bound `L`.
pub proof fn lemma_search_is_bounded(s: Search)
    requires
        s.wf(),
        s.tree.nodes@.len() == 0,
        !s.done(),
    ensures
        s.measure() as int <= pow(
            s.flows@.len() as int + 1,
            (s.max_length + 1) as nat,
        ),
{
    reveal(pow);
    let f = s.flows@.len() as nat;
    let l = s.max_length as nat;
    assert(s.cur is None && s.queue@.len() == 0);
    assert(queue_cost(f, l, s.queue@, s.queue_head as int) == 0);
    assert(s.measure() == 1 + vcost(f, l, 0));
    lemma_vcost_bound(f, l, 0);
    let b: nat = (if 0 < l {
        l
    } else {
        0nat
    }) + 1;
    assert(vcost(f, l, 0) < pow(f as int + 1, b));
    if l == 0 {
        assert(b == 1);
        vstd::arithmetic::power::lemma_pow_positive(f as int + 1, 1);
        assert(pow(f as int + 1, 1) <= pow(
            f as int + 1,
            (l + 1) as nat,
        ));
    } else {
        assert(b == l + 1);
    }
}

} // verus!
