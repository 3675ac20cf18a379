//! The boundary to the SMT solver.
//!
//! The engine keeps one live solver session per exploration. The session is
//! a stack of scopes: `push` opens a scope, `pop` discards the most recent
//! scope together with everything asserted inside it, and `assert` adds a
//! constraint to the current (innermost) scope. The contracts below describe
//! the session by the sequence of its scopes, each scope being the sequence
//! of constraints asserted in it, oldest first.
//!
//! Everything in this file that carries `external_body` is trusted: it is the
//! library's account of what the solver library does, not something the
//! verifier checks.

use vstd::prelude::*;

verus! {

#[verifier::external_type_specification]
#[verifier::external_body]
pub struct ExContext(z3::Context);

#[verifier::external_type_specification]
#[verifier::external_body]
pub struct ExBool<'a>(z3::ast::Bool<'a>);

#[verifier::external_type_specification]
#[verifier::external_body]
pub struct ExBV<'a>(z3::ast::BV<'a>);

#[verifier::external_type_specification]
#[verifier::external_body]
pub struct ExModel<'a>(z3::Model<'a>);

/// One live solver session. The wrapped solver mutates through shared
/// references, which the verifier cannot track, so the whole struct is
/// opaque and every operation below goes through `&mut` and speaks of
/// `session_scopes`.
#[verifier::external_body]
pub struct SolverSession {
    solver: z3::Solver<'static>,
}

/// The scopes of a session, innermost last; each scope holds the constraints
/// asserted in it, oldest first. This names what the wrapped solver holds;
/// the wrappers below say how each solver call changes it.
pub uninterp spec fn session_scopes(s: SolverSession) -> Seq<Seq<z3::ast::Bool<'static>>>;

/// The verdict the solver returns when asked whether a sequence of asserted
/// constraints is satisfiable: `true` for satisfiable, `false` otherwise
/// (an unknown answer also reports as `false`). This names the answer of
/// `z3::Solver::check`, which is a function of the asserted constraints
/// alone: the solver draws on no randomness, clock or environment. The
/// answer is fixed for the solver build this crate links and for contexts
/// configured alike; a context set up with a time limit could answer
/// unknown, and a nonempty constraint sequence pins the context it came
/// from.
pub uninterp spec fn solver_verdict(constraints: Seq<z3::ast::Bool<'static>>) -> bool;

/// The solver context that issued a boolean term. Every term is bound to
/// the context it was created under; handing a term to a solver of another
/// context is undefined in the solver library, so the session operations
/// demand agreement.
pub uninterp spec fn term_ctx(c: z3::ast::Bool<'static>) -> &'static z3::Context;

/// The context a session was created under. Terms asserted into the
/// session must come from it.
pub uninterp spec fn session_ctx(s: SolverSession) -> &'static z3::Context;

/// The bit-vector literal that `z3::ast::BV::from_u64` returns for a
/// context, a value and a width: within one context the result depends on
/// the value and the width alone.
pub uninterp spec fn bv_lit_of(
    ctx: &'static z3::Context,
    value: u64,
    bits: u32,
) -> z3::ast::BV<'static>;

/// The boolean literal that `z3::ast::Bool::from_bool` returns for a
/// context and a truth value: within one context the result depends on the
/// truth value alone.
pub uninterp spec fn bool_lit_of(ctx: &'static z3::Context, b: bool) -> z3::ast::Bool<'static>;

/// Every constraint asserted in a sequence of scopes, outermost scope first.
pub open spec fn all_asserted(scopes: Seq<Seq<z3::ast::Bool<'static>>>) -> Seq<
    z3::ast::Bool<'static>,
>
    decreases scopes.len(),
{
    if scopes.len() == 0 {
        Seq::empty()
    } else {
        all_asserted(scopes.drop_last()) + scopes.last()
    }
}

/// Relies on `z3::Solver::new`: a fresh solver has a single scope and no
/// assertions, and belongs to the given context.
#[verifier::external_body]
pub(crate) fn session_new(ctx: &'static z3::Context) -> (s: SolverSession)
    ensures
        session_scopes(s) == seq![Seq::<z3::ast::Bool<'static>>::empty()],
        session_ctx(s) == ctx,
{
    SolverSession { solver: z3::Solver::new(ctx) }
}

/// Relies on `z3::Solver::assert`: the constraint joins the current scope
/// and nothing else changes. The solver hands the term straight to the
/// underlying library, which requires it to come from the session's own
/// context.
#[verifier::external_body]
pub(crate) fn session_assert(s: &mut SolverSession, c: &z3::ast::Bool<'static>)
    requires
        session_scopes(*old(s)).len() >= 1,
        term_ctx(*c) == session_ctx(*old(s)),
    ensures
        session_scopes(*final(s)) == session_scopes(*old(s)).update(
            session_scopes(*old(s)).len() - 1,
            session_scopes(*old(s)).last().push(*c),
        ),
        session_ctx(*final(s)) == session_ctx(*old(s)),
{
    s.solver.assert(c);
}

/// Relies on `z3::Solver::push`: a new empty scope opens.
#[verifier::external_body]
pub(crate) fn session_push(s: &mut SolverSession)
    ensures
        session_scopes(*final(s)) == session_scopes(*old(s)).push(
            Seq::<z3::ast::Bool<'static>>::empty(),
        ),
        session_ctx(*final(s)) == session_ctx(*old(s)),
{
    s.solver.push();
}

/// Relies on `z3::Solver::pop`: the innermost scope and everything asserted
/// in it are discarded. The solver treats popping its base scope as an
/// error, so a session must keep at least one scope.
#[verifier::external_body]
pub(crate) fn session_pop(s: &mut SolverSession)
    requires
        session_scopes(*old(s)).len() >= 2,
    ensures
        session_scopes(*final(s)) == session_scopes(*old(s)).drop_last(),
        session_ctx(*final(s)) == session_ctx(*old(s)),
{
    s.solver.pop(1);
}

/// Relies on `z3::Solver::check`: the solver answers for exactly the
/// constraints asserted so far, and leaves them in place.
#[verifier::external_body]
pub(crate) fn session_check(s: &SolverSession) -> (r: bool)
    ensures
        r == solver_verdict(all_asserted(session_scopes(*s))),
{
    match s.solver.check() {
        z3::SatResult::Sat => true,
        _ => false,
    }
}

/// Relies on `z3::Solver::get_model`: a satisfying assignment for the
/// constraints of the most recent satisfiable check, if the solver has one.
/// Nothing is promised of the assignment itself.
#[verifier::external_body]
pub(crate) fn session_get_model(s: &SolverSession) -> (m: Option<z3::Model<'static>>) {
    s.solver.get_model()
}

/// Relies on `z3::ast::BV::from_u64`: a bit-vector literal of the given
/// width holding the given value, truncated to the width. The solver
/// rejects a bit-vector sort of width zero, which no IR integer type has,
/// so that width is excluded.
#[verifier::external_body]
pub(crate) fn bv_literal(ctx: &'static z3::Context, value: u64, bits: u32) -> (r: z3::ast::BV<
    'static,
>)
    requires
        bits >= 1,
    ensures
        r == bv_lit_of(ctx, value, bits),
{
    z3::ast::BV::from_u64(ctx, value, bits)
}

/// Relies on `z3::ast::Bool::from_bool`: the boolean literal for the given
/// truth value, issued by the given context.
#[verifier::external_body]
pub(crate) fn bool_literal(ctx: &'static z3::Context, b: bool) -> (r: z3::ast::Bool<'static>)
    ensures
        r == bool_lit_of(ctx, b),
        term_ctx(r) == ctx,
{
    z3::ast::Bool::from_bool(ctx, b)
}

/// Relies on `Clone` for `z3::ast::BV`: the clone is the same term.
#[verifier::external_body]
pub(crate) fn bv_clone(b: &z3::ast::BV<'static>) -> (r: z3::ast::BV<'static>)
    ensures
        r == *b,
{
    b.clone()
}

/// Relies on `Clone` for `z3::ast::Bool`: the clone is the same term.
#[verifier::external_body]
pub(crate) fn bool_clone(b: &z3::ast::Bool<'static>) -> (r: z3::ast::Bool<'static>)
    ensures
        r == *b,
{
    b.clone()
}

/// No scopes, no constraints.
pub proof fn lemma_all_asserted_empty()
    ensures
        all_asserted(Seq::<Seq<z3::ast::Bool<'static>>>::empty()) == Seq::<
            z3::ast::Bool<'static>,
        >::empty(),
{
}

/// Appending a scope appends its constraints.
pub proof fn lemma_all_asserted_push(
    scopes: Seq<Seq<z3::ast::Bool<'static>>>,
    f: Seq<z3::ast::Bool<'static>>,
)
    ensures
        all_asserted(scopes.push(f)) == all_asserted(scopes) + f,
{
    let p = scopes.push(f);
    assert(p.drop_last() =~= scopes);
    assert(p.last() == f);
    assert(all_asserted(p) == all_asserted(p.drop_last()) + p.last());
}

/// Appending an empty scope adds no constraints.
pub proof fn lemma_all_asserted_push_empty(scopes: Seq<Seq<z3::ast::Bool<'static>>>)
    ensures
        all_asserted(scopes.push(Seq::empty())) == all_asserted(scopes),
{
    lemma_all_asserted_push(scopes, Seq::<z3::ast::Bool<'static>>::empty());
    assert(all_asserted(scopes) + Seq::<z3::ast::Bool<'static>>::empty() =~= all_asserted(
        scopes,
    ));
}

/// Asserting into the innermost scope appends one constraint to the whole.
pub proof fn lemma_all_asserted_update_last_push(
    scopes: Seq<Seq<z3::ast::Bool<'static>>>,
    c: z3::ast::Bool<'static>,
)
    requires
        scopes.len() >= 1,
    ensures
        all_asserted(scopes.update(scopes.len() - 1, scopes.last().push(c))) == all_asserted(
            scopes,
        ).push(c),
{
    let upd = scopes.update(scopes.len() - 1, scopes.last().push(c));
    assert(upd.drop_last() =~= scopes.drop_last());
    assert(upd.last() == scopes.last().push(c));
    assert(all_asserted(upd) =~= all_asserted(scopes).push(c));
}

} // verus!
