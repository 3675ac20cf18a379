//! The symbolic execution state: one solver session, one variable
//! environment, and the stack of backtracking points that lets the engine
//! explore branches depth-first.
//!
//! The state keeps two invariants. First, the number of open solver scopes
//! is always one more than the depth of the backtrack stack: every saved
//! point owns exactly one scope, and the base scope belongs to no point.
//! Second, a constraint handed to `save_backtracking_point` is not asserted
//! when it is saved; it joins the assertions only when the engine reverts to
//! that point.
//!
//! All terms handed to a state must come from the solver context it was
//! built with; the context must outlive every term and every state built on
//! it.

use std::collections::HashMap;
use vstd::prelude::*;

use vstd::pervasive::unreached;

use crate::ir::Operand;
use crate::solver::{
    all_asserted, bool_clone, bool_lit_of, bool_literal, bv_clone, bv_lit_of, bv_literal,
    lemma_all_asserted_empty, lemma_all_asserted_push, lemma_all_asserted_push_empty,
    lemma_all_asserted_update_last_push, session_assert, session_check, session_ctx,
    session_get_model, session_new, session_pop, session_push, session_scopes, solver_verdict,
    term_ctx, SolverSession,
};

verus! {

broadcast use vstd::std_specs::hash::group_hash_axioms;

/// A value of the variable environment: a term of one of the two sorts.
/// Projection to one sort is partial; asking for the wrong sort is a caller
/// bug, which the lookup contracts rule out.
pub enum BVorBool {
    BV(z3::ast::BV<'static>),
    Bool(z3::ast::Bool<'static>),
}

/// Why a total environment lookup failed — what the engine treats as a
/// fatal caller error: the key was never bound, or it is bound to a term of
/// the other sort.
#[derive(Debug, PartialEq, Eq, Structural)]
pub enum VarError {
    Unbound,
    WrongSort,
}

/// A saved exploration frontier: where to resume, which block came before
/// it (phi nodes at the resume block need that), and the edge constraint to
/// assert if and when the engine reverts here.
pub struct BacktrackPoint {
    pub next_bb: String,
    pub prev_bb: String,
    pub constraint: z3::ast::Bool<'static>,
}

impl BacktrackPoint {
    fn new(next_bb: String, prev_bb: String, constraint: z3::ast::Bool<'static>) -> (b:
        BacktrackPoint)
        ensures
            b == (BacktrackPoint { next_bb, prev_bb, constraint }),
    {
        BacktrackPoint { next_bb, prev_bb, constraint }
    }
}

/// The exploration state: a solver session, the map from IR value keys to
/// their symbolic terms, and the backtrack stack.
pub struct State {
    pub ctx: &'static z3::Context,
    solver: SolverSession,
    vars: HashMap<u64, BVorBool>,
    backtrack_points: Vec<BacktrackPoint>,
}

impl State {
    /// The solver's scopes, innermost last; each holds the constraints
    /// asserted in it, oldest first.
    pub closed spec fn scopes(self) -> Seq<Seq<z3::ast::Bool<'static>>> {
        session_scopes(self.solver)
    }

    /// Every constraint currently asserted, oldest scope first.
    pub open spec fn constraints(self) -> Seq<z3::ast::Bool<'static>> {
        all_asserted(self.scopes())
    }

    /// The variable environment.
    pub closed spec fn env(self) -> Map<u64, BVorBool> {
        self.vars@
    }

    /// The backtrack stack, oldest first.
    pub closed spec fn saved(self) -> Seq<BacktrackPoint> {
        self.backtrack_points@
    }

    /// The solver context this state was built with.
    pub closed spec fn context(self) -> &'static z3::Context {
        self.ctx
    }

    /// The context the solver session belongs to.
    pub closed spec fn session_context(self) -> &'static z3::Context {
        session_ctx(self.solver)
    }

    /// Scope balance and context discipline: one open scope per saved
    /// backtrack point, plus the base scope; the session belongs to the
    /// state's context; and every saved edge constraint was issued by that
    /// context, so that reverting may assert it.
    pub open spec fn wf(self) -> bool {
        &&& self.scopes().len() == self.saved().len() + 1
        &&& self.session_context() == self.context()
        &&& forall|i: int|
            0 <= i < self.saved().len() ==> #[trigger] term_ctx(self.saved()[i].constraint)
                == self.context()
    }

    pub fn new(ctx: &'static z3::Context) -> (s: State)
        ensures
            s.wf(),
            s.context() == ctx,
            s.scopes() == seq![Seq::<z3::ast::Bool<'static>>::empty()],
            s.constraints() == Seq::<z3::ast::Bool<'static>>::empty(),
            s.env() == Map::<u64, BVorBool>::empty(),
            s.saved() == Seq::<BacktrackPoint>::empty(),
    {
        let s = State {
            ctx,
            solver: session_new(ctx),
            vars: HashMap::new(),
            backtrack_points: Vec::new(),
        };
        proof {
            let empty_frame = Seq::<z3::ast::Bool<'static>>::empty();
            lemma_all_asserted_empty();
            lemma_all_asserted_push(Seq::<Seq<z3::ast::Bool<'static>>>::empty(), empty_frame);
            assert(Seq::<Seq<z3::ast::Bool<'static>>>::empty().push(empty_frame) =~= seq![
                empty_frame,
            ]);
            assert(all_asserted(seq![empty_frame]) =~= Seq::<z3::ast::Bool<'static>>::empty());
        }
        s
    }

    /// Add a constraint at the current scope, permanently. The constraint
    /// must come from this state's context.
    pub fn assert_constraint(&mut self, cond: &z3::ast::Bool<'static>)
        requires
            old(self).wf(),
            term_ctx(*cond) == old(self).context(),
        ensures
            final(self).wf(),
            final(self).scopes() == old(self).scopes().update(
                old(self).scopes().len() - 1,
                old(self).scopes().last().push(*cond),
            ),
            final(self).constraints() == old(self).constraints().push(*cond),
            final(self).env() == old(self).env(),
            final(self).saved() == old(self).saved(),
            final(self).context() == old(self).context(),
            final(self).machine() == apply_op(old(self).machine(), SolverOp::AssertOp(*cond)),
    {
        proof {
            lemma_all_asserted_update_last_push(session_scopes(self.solver), *cond);
        }
        session_assert(&mut self.solver, cond);
        proof {
            assert(self.machine() =~~= apply_op(old(self).machine(), SolverOp::AssertOp(*cond)));
        }
    }

    /// Ask the solver whether the current constraint set is satisfiable.
    pub fn check(&self) -> (r: bool)
        ensures
            r == solver_verdict(self.constraints()),
    {
        session_check(&self.solver)
    }

    /// Check satisfiability together with extra constraints that are not
    /// persisted: a scratch scope is pushed, the extra constraints asserted,
    /// the solver asked, and the scratch scope popped again, whether or not
    /// `conds` is empty. The state afterwards is the state before.
    pub fn check_with_extra_constraints(&mut self, conds: &Vec<z3::ast::Bool<'static>>) -> (r:
        bool)
        requires
            old(self).wf(),
            forall|t: int|
                0 <= t < conds@.len() ==> #[trigger] term_ctx(conds@[t]) == old(self).context(),
        ensures
            final(self).wf(),
            final(self).scopes() == old(self).scopes(),
            final(self).env() == old(self).env(),
            final(self).saved() == old(self).saved(),
            final(self).context() == old(self).context(),
            final(self).machine() == old(self).machine(),
            r == solver_verdict(old(self).constraints() + conds@),
    {
        let ghost base = session_scopes(self.solver);
        let ghost vars0 = self.vars@;
        let ghost bps0 = self.backtrack_points@;
        let ghost ctx0 = self.ctx;
        session_push(&mut self.solver);
        proof {
            assert(conds@.subrange(0, 0) =~= Seq::<z3::ast::Bool<'static>>::empty());
        }
        let mut i: usize = 0;
        while i < conds.len()
            invariant
                0 <= i <= conds.len(),
                session_scopes(self.solver) == base.push(conds@.subrange(0, i as int)),
                session_ctx(self.solver) == ctx0,
                forall|t: int| 0 <= t < conds@.len() ==> #[trigger] term_ctx(conds@[t]) == ctx0,
                self.vars@ == vars0,
                self.backtrack_points@ == bps0,
                self.ctx == ctx0,
            decreases conds.len() - i,
        {
            let c: &z3::ast::Bool<'static> = &conds[i];
            proof {
                let cur = base.push(conds@.subrange(0, i as int));
                assert(cur.last() == conds@.subrange(0, i as int));
                assert(cur.update(cur.len() - 1, cur.last().push(*c)) =~= base.push(
                    conds@.subrange(0, i as int).push(conds@[i as int]),
                ));
                assert(conds@.subrange(0, i as int).push(conds@[i as int]) =~= conds@.subrange(
                    0,
                    i as int + 1,
                ));
            }
            session_assert(&mut self.solver, c);
            i = i + 1;
        }
        proof {
            assert(conds@.subrange(0, conds@.len() as int) =~= conds@);
        }
        let r = session_check(&self.solver);
        proof {
            assert((base.push(conds@)).drop_last() =~= base);
            lemma_all_asserted_push(base, conds@);
        }
        session_pop(&mut self.solver);
        r
    }

    /// A satisfying assignment from the solver. Meaningful only right after
    /// a satisfiable check; what the assignment holds is the solver's choice
    /// and nothing is promised of it.
    pub fn get_model(&self) -> Option<z3::Model<'static>> {
        session_get_model(&self.solver)
    }

    /// Bind the given IR value key to a bitvector term.
    pub fn add_bv_var(&mut self, v: u64, bv: z3::ast::BV<'static>)
        requires
            old(self).wf(),
        ensures
            final(self).wf(),
            final(self).env() == old(self).env().insert(v, BVorBool::BV(bv)),
            final(self).scopes() == old(self).scopes(),
            final(self).saved() == old(self).saved(),
            final(self).context() == old(self).context(),
    {
        self.vars.insert(v, BVorBool::BV(bv));
    }

    /// Bind the given IR value key to a boolean term.
    pub fn add_bool_var(&mut self, v: u64, b: z3::ast::Bool<'static>)
        requires
            old(self).wf(),
        ensures
            final(self).wf(),
            final(self).env() == old(self).env().insert(v, BVorBool::Bool(b)),
            final(self).scopes() == old(self).scopes(),
            final(self).saved() == old(self).saved(),
            final(self).context() == old(self).context(),
    {
        self.vars.insert(v, BVorBool::Bool(b));
    }

    /// Look up the bitvector term previously bound for the given key. A
    /// missing key or a boolean binding is a caller bug; the contract rules
    /// both out.
    pub fn lookup_bv_var(&self, v: u64) -> (r: &z3::ast::BV<'static>)
        requires
            self.env().contains_key(v),
            self.env()[v] matches BVorBool::BV(_),
        ensures
            self.env()[v] == BVorBool::BV(*r),
    {
        match self.vars.get(&v) {
            Some(BVorBool::BV(bv)) => bv,
            _ => unreached(),
        }
    }

    /// Look up the boolean term previously bound for the given key. A
    /// missing key or a bitvector binding is a caller bug; the contract
    /// rules both out.
    pub fn lookup_bool_var(&self, v: u64) -> (r: &z3::ast::Bool<'static>)
        requires
            self.env().contains_key(v),
            self.env()[v] matches BVorBool::Bool(_),
        ensures
            self.env()[v] == BVorBool::Bool(*r),
    {
        match self.vars.get(&v) {
            Some(BVorBool::Bool(b)) => b,
            _ => unreached(),
        }
    }

    /// Total lookup of a bitvector binding: the bound term, or the failure
    /// the engine treats as fatal — the key was never bound, or it is bound
    /// to a boolean term. No coercion between the sorts ever happens: a
    /// boolean binding is never handed out as a bitvector.
    pub fn try_lookup_bv_var(&self, v: u64) -> (r: Result<&z3::ast::BV<'static>, VarError>)
        ensures
            match r {
                Ok(bv) => self.env().contains_key(v) && self.env()[v] == BVorBool::BV(*bv),
                Err(e) => match e {
                    VarError::Unbound => !self.env().contains_key(v),
                    VarError::WrongSort => self.env().contains_key(v) && (self.env()[
                        v
                    ] matches BVorBool::Bool(_)),
                },
            },
    {
        match self.vars.get(&v) {
            Some(BVorBool::BV(bv)) => Ok(bv),
            Some(BVorBool::Bool(_)) => Err(VarError::WrongSort),
            None => Err(VarError::Unbound),
        }
    }

    /// Total lookup of a boolean binding: the bound term, or the failure
    /// the engine treats as fatal — the key was never bound, or it is bound
    /// to a bitvector term. No coercion between the sorts ever happens: a
    /// bitvector binding is never handed out as a boolean.
    pub fn try_lookup_bool_var(&self, v: u64) -> (r: Result<&z3::ast::Bool<'static>, VarError>)
        ensures
            match r {
                Ok(b) => self.env().contains_key(v) && self.env()[v] == BVorBool::Bool(*b),
                Err(e) => match e {
                    VarError::Unbound => !self.env().contains_key(v),
                    VarError::WrongSort => self.env().contains_key(v) && (self.env()[
                        v
                    ] matches BVorBool::BV(_)),
                },
            },
    {
        match self.vars.get(&v) {
            Some(BVorBool::Bool(b)) => Ok(b),
            Some(BVorBool::BV(_)) => Err(VarError::WrongSort),
            None => Err(VarError::Unbound),
        }
    }

    /// Translate an integer operand to a bitvector term: a constant becomes
    /// the literal of the operand's width holding its zero-extended value;
    /// a non-constant operand must already be bound, and its term comes
    /// back. Non-integer operands are unsupported, and an IR integer type
    /// is at least one bit wide.
    pub fn operand_to_bv(&self, v: &Operand) -> (r: z3::ast::BV<'static>)
        requires
            v.is_integer(),
            v matches Operand::Constant { bits, .. } ==> *bits >= 1,
            v matches Operand::Variable { key, .. } ==> self.env().contains_key(*key) && (self.env()[
                *key
            ] matches BVorBool::BV(_)),
        ensures
            v matches Operand::Variable { key, .. } ==> self.env()[*key] == BVorBool::BV(r),
            v matches Operand::Constant { bits, value } ==> r == bv_lit_of(
                self.context(),
                *value,
                *bits,
            ),
    {
        match v {
            Operand::Constant { bits, value } => bv_literal(self.ctx, *value, *bits),
            Operand::Variable { key, .. } => bv_clone(self.lookup_bv_var(*key)),
            Operand::NonInteger => unreached(),
        }
    }

    /// Translate an operand of bit width one to a boolean term: a constant
    /// becomes the boolean literal of its truth value (nonzero is true); a
    /// non-constant operand must already be bound as a boolean, and its term
    /// comes back.
    pub fn operand_to_bool(&self, v: &Operand) -> (r: z3::ast::Bool<'static>)
        requires
            v.is_integer(),
            v.spec_bits() == 1,
            v matches Operand::Variable { key, .. } ==> self.env().contains_key(*key) && (self.env()[
                *key
            ] matches BVorBool::Bool(_)),
        ensures
            v matches Operand::Variable { key, .. } ==> self.env()[*key] == BVorBool::Bool(r),
            v matches Operand::Constant { value, .. } ==> r == bool_lit_of(
                self.context(),
                *value != 0,
            ) && term_ctx(r) == self.context(),
    {
        match v {
            Operand::Constant { value, .. } => bool_literal(self.ctx, *value != 0),
            Operand::Variable { key, .. } => bool_clone(self.lookup_bool_var(*key)),
            Operand::NonInteger => unreached(),
        }
    }

    /// Save a backtracking point: open a new solver scope for the branch
    /// pursued now, and record where to resume with the edge constraint to
    /// assert then. The constraint is not asserted now: the constraint set
    /// is unchanged. It must come from this state's context, since the
    /// revert asserts it.
    pub fn save_backtracking_point(
        &mut self,
        next_bb: String,
        prev_bb: String,
        constraint: z3::ast::Bool<'static>,
    )
        requires
            old(self).wf(),
            term_ctx(constraint) == old(self).context(),
        ensures
            final(self).wf(),
            final(self).scopes() == old(self).scopes().push(Seq::<z3::ast::Bool<'static>>::empty()),
            final(self).saved() == old(self).saved().push(
                (BacktrackPoint { next_bb, prev_bb, constraint }),
            ),
            final(self).constraints() == old(self).constraints(),
            final(self).env() == old(self).env(),
            final(self).context() == old(self).context(),
            final(self).machine() == apply_op(old(self).machine(), SolverOp::SaveOp(constraint)),
    {
        proof {
            lemma_all_asserted_push_empty(session_scopes(self.solver));
        }
        session_push(&mut self.solver);
        self.backtrack_points.push(BacktrackPoint::new(next_bb, prev_bb, constraint));
        proof {
            assert(self.machine() =~~= apply_op(old(self).machine(), SolverOp::SaveOp(constraint)));
            assert forall|i: int|
                0 <= i < self.saved().len() implies #[trigger] term_ctx(
                self.saved()[i].constraint,
            ) == self.context() by {
                if i < old(self).saved().len() {
                    assert(self.saved()[i] == old(self).saved()[i]);
                } else {
                    assert(self.saved()[i].constraint == constraint);
                }
            }
        }
    }

    /// Revert to the most recent backtracking point, if one is left: pop one
    /// solver scope, discarding everything asserted since the matching save,
    /// then assert the saved constraint at the newly current scope. Returns
    /// the block to resume at and its predecessor.
    pub fn revert_to_backtracking_point(&mut self) -> (r: Option<(String, String)>)
        requires
            old(self).wf(),
        ensures
            final(self).wf(),
            final(self).env() == old(self).env(),
            final(self).context() == old(self).context(),
            old(self).saved().len() == 0 ==> r is None && final(self).scopes() == old(
                self,
            ).scopes() && final(self).saved() == old(self).saved(),
            old(self).saved().len() > 0 ==> {
                let bp = old(self).saved().last();
                let shrunk = old(self).scopes().drop_last();
                &&& r == Some((bp.next_bb, bp.prev_bb))
                &&& final(self).saved() == old(self).saved().drop_last()
                &&& final(self).scopes() == shrunk.update(
                    shrunk.len() - 1,
                    shrunk.last().push(bp.constraint),
                )
                &&& final(self).constraints() == all_asserted(shrunk).push(bp.constraint)
            },
            final(self).machine() == apply_op(old(self).machine(), SolverOp::RevertOp),
    {
        match self.backtrack_points.pop() {
            Some(bp) => {
                proof {
                    assert(old(self).saved().subrange(0, old(self).saved().len() - 1) =~= old(
                        self,
                    ).saved().drop_last());
                }
                session_pop(&mut self.solver);
                proof {
                    assert(bp == old(self).saved()[old(self).saved().len() - 1]);
                    assert(term_ctx(bp.constraint) == old(self).context());
                    lemma_all_asserted_update_last_push(
                        session_scopes(self.solver),
                        bp.constraint,
                    );
                }
                session_assert(&mut self.solver, &bp.constraint);
                proof {
                    assert forall|i: int|
                        0 <= i < self.saved().len() implies #[trigger] term_ctx(
                        self.saved()[i].constraint,
                    ) == self.context() by {
                        assert(self.saved()[i] == old(self).saved()[i]);
                    }
                }
                proof {
                    assert(old(self).machine().deferred.len() > 0);
                    assert(self.machine() =~~= apply_op(old(self).machine(), SolverOp::RevertOp));
                }
                Some((bp.next_bb, bp.prev_bb))
            },
            None => {
                proof {
                    assert(old(self).machine().deferred.len() == 0);
                    assert(self.machine() =~~= apply_op(old(self).machine(), SolverOp::RevertOp));
                }
                None
            },
        }
    }

    /// The state as the backtracking laws see it: the scopes, and the saved
    /// edge constraints oldest first.
    pub open spec fn machine(self) -> EngineV {
        EngineV {
            scopes: self.scopes(),
            deferred: self.saved().map_values(|bp: BacktrackPoint| bp.constraint),
        }
    }
}

/// One solver-facing operation of a state, as the backtracking laws
/// describe it.
pub enum SolverOp {
    AssertOp(z3::ast::Bool<'static>),
    SaveOp(z3::ast::Bool<'static>),
    RevertOp,
}

/// What the backtracking laws speak of: the solver's scopes and the saved
/// edge constraints, oldest first.
#[verifier::ext_equal]
pub struct EngineV {
    pub scopes: Seq<Seq<z3::ast::Bool<'static>>>,
    pub deferred: Seq<z3::ast::Bool<'static>>,
}

pub open spec fn engine_wf(v: EngineV) -> bool {
    v.scopes.len() == v.deferred.len() + 1
}

/// How each operation steps the scopes and the deferred constraints.
/// `assert_constraint`, `save_backtracking_point` and
/// `revert_to_backtracking_point` each promise that the state they leave is
/// the state they found stepped by the matching operation.
pub open spec fn apply_op(v: EngineV, op: SolverOp) -> EngineV {
    match op {
        SolverOp::AssertOp(c) => EngineV {
            scopes: v.scopes.update(v.scopes.len() - 1, v.scopes.last().push(c)),
            deferred: v.deferred,
        },
        SolverOp::SaveOp(c) => EngineV {
            scopes: v.scopes.push(Seq::empty()),
            deferred: v.deferred.push(c),
        },
        SolverOp::RevertOp => {
            if v.deferred.len() == 0 {
                v
            } else {
                EngineV {
                    scopes: v.scopes.drop_last().update(
                        v.scopes.len() - 2,
                        v.scopes[v.scopes.len() - 2].push(v.deferred.last()),
                    ),
                    deferred: v.deferred.drop_last(),
                }
            }
        },
    }
}

/// A sequence of operations, applied in order.
pub open spec fn apply_ops(v: EngineV, ops: Seq<SolverOp>) -> EngineV
    decreases ops.len(),
{
    if ops.len() == 0 {
        v
    } else {
        apply_op(apply_ops(v, ops.drop_last()), ops.last())
    }
}

/// A sequence of constraints, as a sequence of assert operations.
pub open spec fn asserts_of(cs: Seq<z3::ast::Bool<'static>>) -> Seq<SolverOp> {
    cs.map_values(|c: z3::ast::Bool<'static>| SolverOp::AssertOp(c))
}

/// Wellformedness survives every operation.
pub proof fn lemma_op_preserves_wf(v: EngineV, op: SolverOp)
    requires
        engine_wf(v),
    ensures
        engine_wf(apply_op(v, op)),
{
}

proof fn lemma_apply_ops_cons(v: EngineV, op: SolverOp, ops: Seq<SolverOp>)
    ensures
        apply_ops(v, seq![op] + ops) == apply_ops(apply_op(v, op), ops),
    decreases ops.len(),
{
    if ops.len() == 0 {
        assert(seq![op] + ops =~= seq![op]);
        assert((seq![op]).drop_last() =~= Seq::<SolverOp>::empty());
        assert((seq![op]).last() == op);
        assert(apply_ops(v, Seq::<SolverOp>::empty()) == v);
        assert(apply_ops(v, seq![op]) == apply_op(v, op));
        assert(apply_ops(apply_op(v, op), ops) == apply_op(v, op));
    } else {
        lemma_apply_ops_cons(v, op, ops.drop_last());
        assert((seq![op] + ops).drop_last() =~= seq![op] + ops.drop_last());
        assert((seq![op] + ops).last() == ops.last());
    }
}

/// Asserting only ever extends the innermost scope.
proof fn lemma_apply_asserts(v: EngineV, cs: Seq<z3::ast::Bool<'static>>)
    requires
        v.scopes.len() >= 1,
    ensures
        apply_ops(v, asserts_of(cs)).scopes == v.scopes.update(
            v.scopes.len() - 1,
            v.scopes.last() + cs,
        ),
        apply_ops(v, asserts_of(cs)).deferred == v.deferred,
    decreases cs.len(),
{
    if cs.len() == 0 {
        assert(asserts_of(cs) =~= Seq::<SolverOp>::empty());
        assert(v.scopes.last() + cs =~= v.scopes.last());
        assert(v.scopes.update(v.scopes.len() - 1, v.scopes.last() + cs) =~= v.scopes);
    } else {
        lemma_apply_asserts(v, cs.drop_last());
        assert(asserts_of(cs).drop_last() =~= asserts_of(cs.drop_last()));
        assert(asserts_of(cs).last() == SolverOp::AssertOp(cs.last()));
        let w = apply_ops(v, asserts_of(cs.drop_last()));
        assert(apply_ops(v, asserts_of(cs)) == apply_op(w, SolverOp::AssertOp(cs.last())));
        assert(w.scopes.last() == v.scopes.last() + cs.drop_last());
        assert((v.scopes.last() + cs.drop_last()).push(cs.last()) =~= v.scopes.last() + cs);
        assert(apply_op(w, SolverOp::AssertOp(cs.last())).scopes =~= v.scopes.update(
            v.scopes.len() - 1,
            v.scopes.last() + cs,
        ));
    }
}

/// Scope balance: a save, any run of asserts on the branch pursued in the
/// meantime, and the matching revert leave the scope stack exactly as it
/// was before the save. Everything asserted after the save is discarded;
/// the one change is that the saved edge constraint has joined the scope
/// that was innermost before the save, which the revert promises.
pub proof fn lemma_scope_balance(
    v: EngineV,
    c: z3::ast::Bool<'static>,
    cs: Seq<z3::ast::Bool<'static>>,
)
    requires
        engine_wf(v),
    ensures
        ({
            let w = apply_ops(
                v,
                seq![SolverOp::SaveOp(c)] + asserts_of(cs) + seq![SolverOp::RevertOp],
            );
            &&& w.scopes == v.scopes.update(v.scopes.len() - 1, v.scopes.last().push(c))
            &&& w.deferred == v.deferred
            &&& all_asserted(w.scopes) == all_asserted(v.scopes).push(c)
        }),
{
    let ops = seq![SolverOp::SaveOp(c)] + asserts_of(cs) + seq![SolverOp::RevertOp];
    let v1 = apply_op(v, SolverOp::SaveOp(c));
    assert(ops.drop_last() =~= seq![SolverOp::SaveOp(c)] + asserts_of(cs));
    assert(ops.last() == SolverOp::RevertOp);
    lemma_apply_ops_cons(v, SolverOp::SaveOp(c), asserts_of(cs));
    let w1 = apply_ops(v1, asserts_of(cs));
    lemma_apply_asserts(v1, cs);
    assert(apply_ops(v, ops) == apply_op(w1, SolverOp::RevertOp));
    assert(w1.deferred == v.deferred.push(c));
    assert(w1.deferred.len() > 0);
    let w = apply_op(w1, SolverOp::RevertOp);
    assert(w1.scopes.len() == v.scopes.len() + 1);
    assert(w1.scopes.drop_last() =~= v.scopes);
    assert(w1.scopes[v.scopes.len() - 1] == v.scopes.last());
    assert(w1.deferred.last() == c);
    assert(w.scopes =~= v.scopes.update(v.scopes.len() - 1, v.scopes.last().push(c)));
    assert(w.deferred =~= v.deferred);
    lemma_all_asserted_update_last_push(v.scopes, c);
}

/// Deferred constraint: saving a backtracking point adds nothing to the
/// asserted constraint set, whatever constraint is saved; the constraint
/// becomes active only through the matching revert (see
/// `lemma_scope_balance` and the contract of `revert_to_backtracking_point`).
pub proof fn lemma_deferred_constraint(v: EngineV, c: z3::ast::Bool<'static>)
    ensures
        all_asserted(apply_op(v, SolverOp::SaveOp(c)).scopes) == all_asserted(v.scopes),
{
    lemma_all_asserted_push_empty(v.scopes);
}

/// Reverting with nothing saved changes nothing.
pub proof fn lemma_revert_on_empty(v: EngineV)
    requires
        v.deferred.len() == 0,
    ensures
        apply_op(v, SolverOp::RevertOp) == v,
{
}

/// How many saves a sequence of operations holds.
pub open spec fn count_saves(ops: Seq<SolverOp>) -> int
    decreases ops.len(),
{
    if ops.len() == 0 {
        0
    } else {
        count_saves(ops.drop_last()) + if ops.last() is SaveOp {
            1int
        } else {
            0int
        }
    }
}

/// How many reverts a sequence of operations holds.
pub open spec fn count_reverts(ops: Seq<SolverOp>) -> int
    decreases ops.len(),
{
    if ops.len() == 0 {
        0
    } else {
        count_reverts(ops.drop_last()) + if ops.last() is RevertOp {
            1int
        } else {
            0int
        }
    }
}

/// A sequence that reverts only its own saves: no prefix holds more reverts
/// than saves.
pub open spec fn reverts_own_saves(ops: Seq<SolverOp>) -> bool {
    forall|k: int|
        0 <= k <= ops.len() ==> #[trigger] count_reverts(ops.take(k)) <= count_saves(ops.take(k))
}

proof fn lemma_counts_of_prefix(ops: Seq<SolverOp>)
    requires
        ops.len() > 0,
    ensures
        reverts_own_saves(ops) ==> reverts_own_saves(ops.drop_last()),
        count_saves(ops.drop_last()) == count_saves(ops.take(ops.len() - 1)),
        count_reverts(ops.drop_last()) == count_reverts(ops.take(ops.len() - 1)),
{
    assert(ops.drop_last() =~= ops.take(ops.len() - 1));
    if reverts_own_saves(ops) {
        assert forall|k: int| 0 <= k <= ops.drop_last().len() implies #[trigger] count_reverts(
            ops.drop_last().take(k),
        ) <= count_saves(ops.drop_last().take(k)) by {
            assert(ops.drop_last().take(k) =~= ops.take(k));
            assert(count_reverts(ops.take(k)) <= count_saves(ops.take(k)));
        }
    }
}

/// The shape a run of operations leaves, provided it reverts only its own
/// saves: the scope stack grows by the running save surplus; the scopes and
/// the saved constraints that were there before are untouched, except that
/// the scope that was innermost at the start may have gained constraints.
proof fn lemma_dyck_shape(v: EngineV, ops: Seq<SolverOp>)
    requires
        engine_wf(v),
        reverts_own_saves(ops),
    ensures
        ({
            let w = apply_ops(v, ops);
            let d = count_saves(ops) - count_reverts(ops);
            &&& d >= 0
            &&& engine_wf(w)
            &&& w.deferred.len() == v.deferred.len() + d
            &&& w.deferred.take(v.deferred.len() as int) == v.deferred
            &&& w.scopes.len() == v.scopes.len() + d
            &&& (forall|i: int| 0 <= i < v.scopes.len() - 1 ==> w.scopes[i] == v.scopes[i])
            &&& v.scopes.last().is_prefix_of(w.scopes[v.scopes.len() - 1])
        }),
    decreases ops.len(),
{
    let w = apply_ops(v, ops);
    let d = count_saves(ops) - count_reverts(ops);
    assert(ops.take(ops.len() as int) =~= ops);
    assert(ops.take(0) =~= Seq::<SolverOp>::empty());
    if ops.len() == 0 {
        assert(w == v);
        assert(w.deferred.take(v.deferred.len() as int) =~= v.deferred);
        assert(v.scopes.last().is_prefix_of(v.scopes.last()));
    } else {
        let ops0 = ops.drop_last();
        let w0 = apply_ops(v, ops0);
        let d0 = count_saves(ops0) - count_reverts(ops0);
        lemma_counts_of_prefix(ops);
        lemma_dyck_shape(v, ops0);
        let top: int = v.scopes.len() - 1;
        match ops.last() {
            SolverOp::AssertOp(c) => {
                assert(d == d0);
                assert(w == apply_op(w0, SolverOp::AssertOp(c)));
                assert(w.scopes =~= w0.scopes.update(
                    w0.scopes.len() - 1,
                    w0.scopes.last().push(c),
                ));
                if d0 == 0 {
                    assert(w0.scopes.len() - 1 == top);
                    assert(w.scopes[top] == w0.scopes[top].push(c));
                    assert(v.scopes.last().is_prefix_of(w0.scopes[top]));
                    assert(w0.scopes[top].is_prefix_of(w0.scopes[top].push(c))) by {
                        assert(w0.scopes[top].push(c).take(w0.scopes[top].len() as int)
                            =~= w0.scopes[top]);
                    }
                    assert(v.scopes.last().is_prefix_of(w.scopes[top])) by {
                        let a = v.scopes.last();
                        let b = w0.scopes[top];
                        let cc = w.scopes[top];
                        assert(a.len() <= cc.len());
                        assert(cc.take(a.len() as int) =~= a);
                    }
                } else {
                    assert(w0.scopes.len() - 1 > top);
                    assert(w.scopes[top] == w0.scopes[top]);
                }
                assert(w.deferred.take(v.deferred.len() as int) == v.deferred);
            },
            SolverOp::SaveOp(c) => {
                assert(d == d0 + 1);
                assert(w == apply_op(w0, SolverOp::SaveOp(c)));
                assert(w.scopes =~= w0.scopes.push(Seq::empty()));
                assert(w.scopes[top] == w0.scopes[top]);
                assert(w.deferred.take(v.deferred.len() as int) =~= w0.deferred.take(
                    v.deferred.len() as int,
                ));
            },
            SolverOp::RevertOp => {
                assert(count_reverts(ops) <= count_saves(ops));
                assert(d0 == d + 1);
                assert(d0 >= 1);
                assert(w0.deferred.len() > v.deferred.len());
                assert(w == apply_op(w0, SolverOp::RevertOp));
                let newtop: int = w0.scopes.len() - 2;
                assert(w.scopes =~= w0.scopes.drop_last().update(
                    newtop,
                    w0.scopes[newtop].push(w0.deferred.last()),
                ));
                assert(newtop >= top);
                if d == 0 {
                    assert(newtop == top);
                    assert(w.scopes[top] == w0.scopes[top].push(w0.deferred.last()));
                    assert(v.scopes.last().is_prefix_of(w.scopes[top])) by {
                        let a = v.scopes.last();
                        assert(a.is_prefix_of(w0.scopes[top]));
                        assert(a.len() <= w.scopes[top].len());
                        assert(w.scopes[top].take(a.len() as int) =~= a);
                    }
                } else {
                    assert(newtop > top);
                    assert(w.scopes[top] == w0.scopes[top]);
                }
                assert(w.deferred =~= w0.deferred.drop_last());
                assert(w.deferred.take(v.deferred.len() as int) =~= w0.deferred.take(
                    v.deferred.len() as int,
                ));
            },
        }
    }
}

/// Scope balance, in general: any run of operations with as many reverts as
/// saves, where no revert reaches below the run's own saves, leaves the
/// scope stack at its old depth and the backtrack stack exactly as it was.
/// Every scope that was open before the run holds what it held, except the
/// scope that was innermost at the start: everything asserted inside the
/// run's save/revert blocks has been discarded, and that scope has gained
/// at most the constraints asserted at the run's own level and the deferred
/// constraints of its completed blocks (see `lemma_scope_balance` for the
/// exact gain of one block).
pub proof fn lemma_scope_balance_general(v: EngineV, ops: Seq<SolverOp>)
    requires
        engine_wf(v),
        reverts_own_saves(ops),
        count_saves(ops) == count_reverts(ops),
    ensures
        ({
            let w = apply_ops(v, ops);
            &&& engine_wf(w)
            &&& w.deferred == v.deferred
            &&& w.scopes.len() == v.scopes.len()
            &&& (forall|i: int| 0 <= i < v.scopes.len() - 1 ==> w.scopes[i] == v.scopes[i])
            &&& v.scopes.last().is_prefix_of(w.scopes.last())
        }),
{
    lemma_dyck_shape(v, ops);
    let w = apply_ops(v, ops);
    assert(w.deferred =~= w.deferred.take(v.deferred.len() as int));
}

} // verus!
