use vstd::prelude::*;
use cassowary::WeightedRelation::EQ;
use crate::events::{Event, EventAddress, EventQueue, LayoutChanged, QueueEntry};

verus! {

/// A constraint or edit-variable priority tier. The solver satisfies
/// required constraints always and the rest best-effort, stronger tiers
/// first. Edit variables must sit below `Required`.
#[derive(Clone, Copy, PartialEq, Eq, Structural, Debug)]
pub enum Strength {
    Weak,
    Medium,
    Strong,
    Required,
}

/// The errors the solver integration surfaces. The first two are the
/// benign, locally recoverable probes of interactive code; `Internal`
/// reports a fault inside the underlying solver.
#[derive(Clone, Copy, PartialEq, Eq, Structural, Debug)]
pub enum SolverError {
    DuplicateEditVariable,
    UnknownEditVariable,
    DuplicateConstraint,
    UnsatisfiableConstraint,
    UnknownConstraint,
    Internal,
}

/// One of the four layout variables of a widget.
#[derive(Clone, Copy, PartialEq, Eq, Structural, Debug)]
pub enum Edge {
    Left,
    Top,
    Right,
    Bottom,
}

pub open spec fn edge_num(e: Edge) -> int {
    match e {
        Edge::Left => 0,
        Edge::Top => 1,
        Edge::Right => 2,
        Edge::Bottom => 3,
    }
}

#[verifier::external_type_specification]
#[verifier::external_body]
pub struct ExSolver(cassowary::Solver);

#[verifier::external_type_specification]
#[verifier::external_body]
pub struct ExVariable(cassowary::Variable);

#[verifier::external_type_specification]
#[verifier::external_body]
pub struct ExConstraint(cassowary::Constraint);

/// The set of edit variables the solver currently holds.
pub uninterp spec fn solver_edit_vars(s: cassowary::Solver) -> Set<cassowary::Variable>;

/// The resolved value of a variable in the solver's current solution,
/// in whole pixels.
pub uninterp spec fn solver_value_px(s: cassowary::Solver, v: cassowary::Variable) -> int;

/// Relies on cassowary::Solver::new: a fresh solver has no edit
/// variables.
#[verifier::external_body]
fn solver_new() -> (s: cassowary::Solver)
    ensures
        solver_edit_vars(s) == Set::<cassowary::Variable>::empty(),
{
    cassowary::Solver::new()
}

/// Relies on cassowary::Variable::new: each call draws a fresh id from a
/// global counter, so the result differs from every variable created
/// before it — in particular from everything in `existing` and from
/// every edit variable `s` holds.
#[verifier::external_body]
fn fresh_variable(existing: &Vec<cassowary::Variable>, s: &cassowary::Solver) -> (v:
    cassowary::Variable)
    ensures
        forall|i: int| 0 <= i < existing@.len() ==> existing@[i] != v,
        !solver_edit_vars(*s).contains(v),
{
    cassowary::Variable::new()
}

/// Relies on the derived cassowary::Variable PartialEq: variables are
/// equal exactly when they carry the same id, which identifies them.
#[verifier::external_body]
fn var_eq(a: &cassowary::Variable, b: &cassowary::Variable) -> (r: bool)
    ensures
        r == (*a == *b),
{
    a == b
}

/// Relies on cassowary::Solver::has_edit_variable: true exactly when the
/// variable has been added as an edit variable and not removed.
#[verifier::external_body]
fn solver_has_edit(s: &cassowary::Solver, v: &cassowary::Variable) -> (r: bool)
    ensures
        r == solver_edit_vars(*s).contains(*v),
{
    s.has_edit_variable(v)
}

/// Relies on cassowary::Solver::add_edit_variable: for a variable not
/// yet edited and a strength below required, it registers the variable
/// and returns Ok.
#[verifier::external_body]
fn solver_add_edit(s: &mut cassowary::Solver, v: cassowary::Variable, strength: Strength)
    requires
        !solver_edit_vars(*old(s)).contains(v),
        strength != Strength::Required,
    ensures
        solver_edit_vars(*final(s)) == solver_edit_vars(*old(s)).insert(v),
{
    let st = match strength {
        Strength::Weak => cassowary::strength::WEAK,
        Strength::Medium => cassowary::strength::MEDIUM,
        Strength::Strong => cassowary::strength::STRONG,
        Strength::Required => cassowary::strength::REQUIRED,
    };
    let _ = s.add_edit_variable(v, st);
}

/// Relies on cassowary::Solver::remove_edit_variable: the variable's
/// edit entry is removed.
#[verifier::external_body]
fn solver_remove_edit(s: &mut cassowary::Solver, v: cassowary::Variable)
    requires
        solver_edit_vars(*old(s)).contains(v),
    ensures
        solver_edit_vars(*final(s)) == solver_edit_vars(*old(s)).remove(v),
{
    let _ = s.remove_edit_variable(v);
}

/// The widest band of pixel values handed on to the solver; wider
/// suggestions are clamped to it by the callers, in verified code.
pub const MAX_SUGGESTION: i64 = 0x7fff_ffff;

/// `v` clamped into the band the solver accepts.
fn clamp_suggestion(v: i64) -> (r: i64)
    ensures
        r == if v > MAX_SUGGESTION {
            MAX_SUGGESTION as int
        } else if v < -MAX_SUGGESTION - 1 {
            -MAX_SUGGESTION - 1
        } else {
            v as int
        },
        -MAX_SUGGESTION - 1 <= r <= MAX_SUGGESTION,
{
    if v > MAX_SUGGESTION {
        MAX_SUGGESTION
    } else if v < -MAX_SUGGESTION - 1 {
        -MAX_SUGGESTION - 1
    } else {
        v
    }
}

/// Relies on cassowary::Solver::suggest_value: it fails with
/// UnknownEditVariable exactly when the variable is not an edit
/// variable, never reports a duplicate, and leaves the edit set as it
/// was.
#[verifier::external_body]
fn solver_suggest(s: &mut cassowary::Solver, v: cassowary::Variable, value: i64) -> (r: Result<
    (),
    SolverError,
>)
    requires
        -0x8000_0000 <= value <= 0x7fff_ffff,
    ensures
        solver_edit_vars(*final(s)) == solver_edit_vars(*old(s)),
        (r matches Err(e) && e == SolverError::UnknownEditVariable) <==> !solver_edit_vars(
            *old(s),
        ).contains(v),
        r matches Err(e) ==> (e == SolverError::UnknownEditVariable || e == SolverError::Internal),
{
    match s.suggest_value(v, (value as i32).into()) {
        Ok(()) => Ok(()),
        Err(cassowary::SuggestValueError::UnknownEditVariable) => Err(
            SolverError::UnknownEditVariable,
        ),
        Err(cassowary::SuggestValueError::InternalSolverError(_)) => Err(SolverError::Internal),
    }
}

/// Relies on cassowary::Solver::fetch_changes: it reports the variables
/// whose resolved values changed since the last fetch and does not touch
/// the edit-variable set.
#[verifier::external_body]
fn solver_fetch_changes(s: &mut cassowary::Solver) -> (r: Vec<cassowary::Variable>)
    ensures
        solver_edit_vars(*final(s)) == solver_edit_vars(*old(s)),
{
    s.fetch_changes().iter().map(|&(v, _)| v).collect()
}

/// Relies on cassowary::Solver::get_value: a pure read of the current
/// solution, a function of the solver state and the variable alone.
#[verifier::external_body]
fn solver_get_value(s: &cassowary::Solver, v: &cassowary::Variable) -> (r: i64)
    ensures
        r == solver_value_px(*s, *v),
{
    s.get_value(*v) as i64
}

/// Relies on cassowary::Solver::add_constraint: it does not touch the
/// edit-variable set, and each error variant reports what its name says.
#[verifier::external_body]
fn solver_add_constraint(s: &mut cassowary::Solver, c: cassowary::Constraint) -> (r: Result<
    (),
    SolverError,
>)
    ensures
        solver_edit_vars(*final(s)) == solver_edit_vars(*old(s)),
{
    match s.add_constraint(c) {
        Ok(()) => Ok(()),
        Err(cassowary::AddConstraintError::DuplicateConstraint) => Err(
            SolverError::DuplicateConstraint,
        ),
        Err(cassowary::AddConstraintError::UnsatisfiableConstraint) => Err(
            SolverError::UnsatisfiableConstraint,
        ),
        Err(cassowary::AddConstraintError::InternalSolverError(_)) => Err(SolverError::Internal),
    }
}

/// Relies on cassowary::Solver::remove_constraint: it does not touch the
/// edit-variable set.
#[verifier::external_body]
fn solver_remove_constraint(s: &mut cassowary::Solver, c: &cassowary::Constraint) -> (r: Result<
    (),
    SolverError,
>)
    ensures
        solver_edit_vars(*final(s)) == solver_edit_vars(*old(s)),
{
    match s.remove_constraint(c) {
        Ok(()) => Ok(()),
        Err(cassowary::RemoveConstraintError::UnknownConstraint) => Err(
            SolverError::UnknownConstraint,
        ),
        Err(cassowary::RemoveConstraintError::InternalSolverError(_)) => Err(SolverError::Internal),
    }
}

/// Relies on cassowary's constraint operators: builds the linear
/// constraint `a - b == value` at the given strength.
#[verifier::external_body]
fn make_diff_constraint(
    a: cassowary::Variable,
    b: cassowary::Variable,
    value: i64,
    strength: Strength,
) -> cassowary::Constraint
    requires
        -0x8000_0000 <= value <= 0x7fff_ffff,
{
    let st = match strength {
        Strength::Weak => cassowary::strength::WEAK,
        Strength::Medium => cassowary::strength::MEDIUM,
        Strength::Strong => cassowary::strength::STRONG,
        Strength::Required => cassowary::strength::REQUIRED,
    };
    (a - b) | EQ(st) | cassowary::Expression::from_constant((value as i32).into())
}

/// The four solver variables registered for one widget.
pub struct VarEntry {
    pub widget: usize,
    pub left: cassowary::Variable,
    pub top: cassowary::Variable,
    pub right: cassowary::Variable,
    pub bottom: cassowary::Variable,
}

pub open spec fn entry_var(en: VarEntry, e: Edge) -> cassowary::Variable {
    match e {
        Edge::Left => en.left,
        Edge::Top => en.top,
        Edge::Right => en.right,
        Edge::Bottom => en.bottom,
    }
}

/// The incremental layout solver, wrapping a cassowary solver and the
/// per-widget variable registry. Registration and deregistration are
/// explicit, paired operations driven by graph insertion and removal, so
/// the variable set always mirrors the graph.
pub struct LimnSolver {
    solver: cassowary::Solver,
    entries: Vec<VarEntry>,
    all_vars: Vec<cassowary::Variable>,
}

impl LimnSolver {
    /// The per-widget variable registry, as entries in registration
    /// order.
    pub closed spec fn entries_view(self) -> Seq<VarEntry> {
        self.entries@
    }

    /// The widgets whose variables are registered.
    pub closed spec fn registered(self, w: usize) -> bool {
        exists|i: int|
            0 <= i < self.entries@.len() && (#[trigger] self.entries@[i]).widget == w
    }

    /// Whether the layout variable `(w, e)` is currently in edit mode.
    pub closed spec fn is_edit(self, w: usize, e: Edge) -> bool {
        exists|i: int|
            0 <= i < self.entries@.len() && (#[trigger] self.entries@[i]).widget == w
                && solver_edit_vars(self.solver).contains(entry_var(self.entries@[i], e))
    }

    /// The resolved value of the layout variable `(w, e)`, in pixels.
    pub closed spec fn value_at(self, w: usize, e: Edge) -> int {
        let i = choose|i: int|
            0 <= i < self.entries@.len() && (#[trigger] self.entries@[i]).widget == w;
        solver_value_px(self.solver, entry_var(self.entries@[i], e))
    }

    /// Every widget is registered at most once, the flat variable list
    /// mirrors the entries, all variables are pairwise distinct, and the
    /// solver's edit variables all come from this registry.
    pub closed spec fn wf(self) -> bool {
        &&& self.all_vars@.len() == 4 * self.entries@.len()
        &&& forall|i: int, j: int|
            0 <= i < j < self.entries@.len() ==> (#[trigger] self.entries@[i]).widget != (
            #[trigger] self.entries@[j]).widget
        &&& forall|i: int|
            0 <= i < self.entries@.len() ==> {
                let en = #[trigger] self.entries@[i];
                &&& en.left == self.all_vars@[4 * i]
                &&& en.top == self.all_vars@[4 * i + 1]
                &&& en.right == self.all_vars@[4 * i + 2]
                &&& en.bottom == self.all_vars@[4 * i + 3]
            }
        &&& forall|a: int, b: int|
            0 <= a < b < self.all_vars@.len() ==> #[trigger] self.all_vars@[a]
                != #[trigger] self.all_vars@[b]
        &&& forall|v: cassowary::Variable|
            solver_edit_vars(self.solver).contains(v) ==> #[trigger] self.all_vars@.contains(v)
    }

    /// An edit-mode variable belongs to a registered widget.
    pub proof fn lemma_is_edit_registered(self, w: usize, e: Edge)
        ensures
            self.is_edit(w, e) ==> self.registered(w),
    {
        if self.is_edit(w, e) {
            let j = choose|j: int|
                0 <= j < self.entries@.len() && (#[trigger] self.entries@[j]).widget == w
                    && solver_edit_vars(self.solver).contains(entry_var(self.entries@[j], e));
            assert(0 <= j < self.entries@.len() && self.entries@[j].widget == w);
        }
    }

    /// Distinct registered variables: two edges of (possibly different)
    /// entries carry the same solver variable only when they are the
    /// same edge of the same entry.
    proof fn lemma_var_inj(self, i: int, j: int, e1: Edge, e2: Edge)
        requires
            self.wf(),
            0 <= i < self.entries@.len(),
            0 <= j < self.entries@.len(),
            entry_var(self.entries@[i], e1) == entry_var(self.entries@[j], e2),
        ensures
            i == j && e1 == e2,
    {
        let p1 = 4 * i + edge_num(e1);
        let p2 = 4 * j + edge_num(e2);
        assert(self.all_vars@[p1] == entry_var(self.entries@[i], e1));
        assert(self.all_vars@[p2] == entry_var(self.entries@[j], e2));
        if p1 < p2 {
            assert(self.all_vars@[p1] != self.all_vars@[p2]);
        } else if p2 < p1 {
            assert(self.all_vars@[p2] != self.all_vars@[p1]);
        }
    }

    /// A fresh solver integration with no registered widgets.
    pub fn new() -> (s: LimnSolver)
        ensures
            s.wf(),
            forall|w: usize| !s.registered(w),
            forall|w: usize, e: Edge| !s.is_edit(w, e),
    {
        LimnSolver { solver: solver_new(), entries: Vec::new(), all_vars: Vec::new() }
    }

    /// The entry index of widget `w`, if registered.
    fn find_entry(&self, w: usize) -> (r: Option<usize>)
        requires
            self.wf(),
        ensures
            match r {
                Some(i) => i < self.entries@.len() && self.entries@[i as int].widget == w,
                None => !self.registered(w),
            },
    {
        let n = self.entries.len();
        let mut i: usize = 0;
        while i < n
            invariant
                n == self.entries@.len(),
                0 <= i <= n,
                forall|j: int| 0 <= j < i ==> (#[trigger] self.entries@[j]).widget != w,
            decreases n - i,
        {
            if self.entries[i].widget == w {
                return Some(i);
            }
            i = i + 1;
        }
        None
    }

    /// Whether widget `w` has registered layout variables.
    pub fn is_registered(&self, w: usize) -> (r: bool)
        requires
            self.wf(),
        ensures
            r == self.registered(w),
    {
        match self.find_entry(w) {
            Some(_) => true,
            None => false,
        }
    }

    /// Registers the four layout variables of widget `w` with the
    /// solver. Called when the graph takes ownership of a widget.
    pub fn register_widget(&mut self, w: usize)
        requires
            old(self).wf(),
            !old(self).registered(w),
        ensures
            final(self).wf(),
            forall|x: usize| #[trigger] final(self).registered(x) <==> (old(self).registered(x) || x == w),
            forall|x: usize, e: Edge|
                #[trigger] final(self).is_edit(x, e) <==> old(self).is_edit(x, e),
    {
        let ghost g0 = *self;
        let v0 = fresh_variable(&self.all_vars, &self.solver);
        self.all_vars.push(v0);
        let v1 = fresh_variable(&self.all_vars, &self.solver);
        self.all_vars.push(v1);
        let v2 = fresh_variable(&self.all_vars, &self.solver);
        self.all_vars.push(v2);
        let v3 = fresh_variable(&self.all_vars, &self.solver);
        self.all_vars.push(v3);
        self.entries.push(VarEntry { widget: w, left: v0, top: v1, right: v2, bottom: v3 });
        proof {
            let n = g0.entries@.len() as int;
            assert forall|v: cassowary::Variable|
                solver_edit_vars(self.solver).contains(v) implies #[trigger] self.all_vars@.contains(
                v,
            ) by {
                assert(g0.all_vars@.contains(v));
                let i = choose|i: int| 0 <= i < g0.all_vars@.len() && g0.all_vars@[i] == v;
                assert(self.all_vars@[i] == v);
            }
            assert forall|x: usize, e: Edge|
                #[trigger] self.is_edit(x, e) <==> g0.is_edit(x, e) by {
                if self.is_edit(x, e) {
                    let i = choose|i: int|
                        0 <= i < self.entries@.len() && (#[trigger] self.entries@[i]).widget == x
                            && solver_edit_vars(self.solver).contains(
                            entry_var(self.entries@[i], e),
                        );
                    if i == n {
                        assert(!solver_edit_vars(g0.solver).contains(
                            entry_var(self.entries@[n], e),
                        ));
                        assert(false);
                    } else {
                        assert(g0.entries@[i] == self.entries@[i]);
                    }
                }
                if g0.is_edit(x, e) {
                    let i = choose|i: int|
                        0 <= i < g0.entries@.len() && (#[trigger] g0.entries@[i]).widget == x
                            && solver_edit_vars(g0.solver).contains(entry_var(g0.entries@[i], e));
                    assert(self.entries@[i] == g0.entries@[i]);
                }
            }
            assert forall|x: usize|
                #[trigger] self.registered(x) <==> (g0.registered(x) || x == w) by {
                if self.registered(x) {
                    let i = choose|i: int|
                        0 <= i < self.entries@.len() && (#[trigger] self.entries@[i]).widget == x;
                    if i < n {
                        assert(g0.entries@[i] == self.entries@[i]);
                    }
                }
                if g0.registered(x) {
                    let i = choose|i: int|
                        0 <= i < g0.entries@.len() && (#[trigger] g0.entries@[i]).widget == x;
                    assert(self.entries@[i] == g0.entries@[i]);
                }
                assert(self.entries@[n].widget == w);
            }
        }
    }
}

impl LimnSolver {
    /// Deregisters every layout variable widget `w` registered: its edit
    /// variables leave the solver and its entry leaves the registry, so
    /// a later re-registration starts from a clean slate. Removing a
    /// widget that is not registered changes nothing.
    #[verifier::rlimit(100)]
    #[verifier::spinoff_prover]
    pub fn remove_widget(&mut self, w: usize)
        requires
            old(self).wf(),
        ensures
            final(self).wf(),
            forall|x: usize|
                #[trigger] final(self).registered(x) <==> (old(self).registered(x) && x != w),
            forall|x: usize, e: Edge|
                #[trigger] final(self).is_edit(x, e) <==> (old(self).is_edit(x, e) && x != w),
    {
        let ghost g0 = *self;
        let i = match self.find_entry(w) {
            Some(i) => i,
            None => {
                proof {
                    assert forall|x: usize, e: Edge|
                        #[trigger] self.is_edit(x, e) implies (g0.is_edit(x, e) && x != w) by {
                        if x == w {
                            assert(g0.registered(w));
                        }
                    }
                }
                return ;
            },
        };
        // Take the four variables out of edit mode.
        let mut k: usize = 0;
        while k < 4
            invariant
                self.entries@ == g0.entries@,
                self.all_vars@ == g0.all_vars@,
                g0.wf(),
                0 <= i < g0.entries@.len(),
                g0.entries@[i as int].widget == w,
                0 <= k <= 4,
                forall|v: cassowary::Variable|
                    #[trigger] solver_edit_vars(self.solver).contains(v) ==> solver_edit_vars(
                        g0.solver,
                    ).contains(v),
                forall|v: cassowary::Variable|
                    #[trigger] solver_edit_vars(g0.solver).contains(v) && !solver_edit_vars(
                        self.solver,
                    ).contains(v) ==> exists|e: Edge|
                        #[trigger] entry_var(g0.entries@[i as int], e) == v && edge_num(e) < k,
                forall|e: Edge|
                    #[trigger] edge_num(e) < k ==> !solver_edit_vars(self.solver).contains(
                        entry_var(g0.entries@[i as int], e),
                    ),
            decreases 4 - k,
        {
            let en = &self.entries[i];
            let v = if k == 0 {
                en.left
            } else if k == 1 {
                en.top
            } else if k == 2 {
                en.right
            } else {
                en.bottom
            };
            let ghost e: Edge = if k == 0 {
                Edge::Left
            } else if k == 1 {
                Edge::Top
            } else if k == 2 {
                Edge::Right
            } else {
                Edge::Bottom
            };
            proof {
                assert(v == entry_var(g0.entries@[i as int], e));
            }
            if solver_has_edit(&self.solver, &v) {
                solver_remove_edit(&mut self.solver, v);
            }
            proof {
                assert forall|e2: Edge|
                    #[trigger] edge_num(e2) < k + 1 implies !solver_edit_vars(
                    self.solver,
                ).contains(entry_var(g0.entries@[i as int], e2)) by {
                    if edge_num(e2) == edge_num(e) {
                        assert(e2 == e);
                    }
                }
                assert forall|v2: cassowary::Variable|
                    #[trigger] solver_edit_vars(g0.solver).contains(v2) && !solver_edit_vars(
                        self.solver,
                    ).contains(v2) implies exists|e2: Edge|
                    #[trigger] entry_var(g0.entries@[i as int], e2) == v2 && edge_num(e2) < k
                        + 1 by {
                    if v2 == v {
                        assert(entry_var(g0.entries@[i as int], e) == v2 && edge_num(e) < k + 1);
                    }
                }
            }
            k = k + 1;
        }
        // Drop the entry and its four variables from the registry.
        let total = self.all_vars.len();
        proof {
            assert(total == 4 * g0.entries@.len());
            assert(4 * i + 4 <= total);
        }
        self.entries.remove(i);
        let ghost a0 = self.all_vars@;
        self.all_vars.remove(4 * i);
        self.all_vars.remove(4 * i);
        self.all_vars.remove(4 * i);
        self.all_vars.remove(4 * i);
        proof {
            let ii = i as int;
            assert(self.all_vars@ =~= a0.take(4 * ii) + a0.skip(4 * ii + 4));
            assert(self.entries@ =~= g0.entries@.take(ii) + g0.entries@.skip(ii + 1));
            Self::lemma_after_entry_removal(g0, *self, ii, w);
        }
    }
    /// After one widget's entry, its four variables and their edit modes
    /// are removed, the registry is well-formed again and registration
    /// and edit mode have lost exactly that widget.
    #[verifier::rlimit(100)]
    #[verifier::spinoff_prover]
    proof fn lemma_after_entry_removal(g0: LimnSolver, fin: LimnSolver, ii: int, w: usize)
        requires
            g0.wf(),
            0 <= ii < g0.entries@.len(),
            g0.entries@[ii].widget == w,
            fin.entries@ == g0.entries@.take(ii) + g0.entries@.skip(ii + 1),
            fin.all_vars@ == g0.all_vars@.take(4 * ii) + g0.all_vars@.skip(4 * ii + 4),
            forall|v: cassowary::Variable|
                #[trigger] solver_edit_vars(fin.solver).contains(v) ==> solver_edit_vars(
                    g0.solver,
                ).contains(v),
            forall|v: cassowary::Variable|
                #[trigger] solver_edit_vars(g0.solver).contains(v) && !solver_edit_vars(
                    fin.solver,
                ).contains(v) ==> exists|e: Edge|
                    #[trigger] entry_var(g0.entries@[ii], e) == v && edge_num(e) < 4,
            forall|e: Edge|
                #[trigger] edge_num(e) < 4 ==> !solver_edit_vars(fin.solver).contains(
                    entry_var(g0.entries@[ii], e),
                ),
        ensures
            fin.wf(),
            forall|x: usize| #[trigger] fin.registered(x) <==> (g0.registered(x) && x != w),
            forall|x: usize, e: Edge|
                #[trigger] fin.is_edit(x, e) <==> (g0.is_edit(x, e) && x != w),
    {

        // Well-formedness of the shrunken registry.
        assert(fin.all_vars@.len() == 4 * fin.entries@.len());
        assert forall|a: int, b: int|
            0 <= a < b < fin.entries@.len() implies (#[trigger] fin.entries@[a]).widget != (
        #[trigger] fin.entries@[b]).widget by {
            let oa = if a < ii { a } else { a + 1 };
            let ob = if b < ii { b } else { b + 1 };
            assert(fin.entries@[a] == g0.entries@[oa] && fin.entries@[b] == g0.entries@[ob]);
        }
        assert forall|j: int| 0 <= j < fin.entries@.len() implies {
            let en = #[trigger] fin.entries@[j];
            &&& en.left == fin.all_vars@[4 * j]
            &&& en.top == fin.all_vars@[4 * j + 1]
            &&& en.right == fin.all_vars@[4 * j + 2]
            &&& en.bottom == fin.all_vars@[4 * j + 3]
        } by {
            let oj = if j < ii { j } else { j + 1 };
            assert(fin.entries@[j] == g0.entries@[oj]);
            assert(fin.all_vars@[4 * j] == g0.all_vars@[4 * oj]);
            assert(fin.all_vars@[4 * j + 1] == g0.all_vars@[4 * oj + 1]);
            assert(fin.all_vars@[4 * j + 2] == g0.all_vars@[4 * oj + 2]);
            assert(fin.all_vars@[4 * j + 3] == g0.all_vars@[4 * oj + 3]);
        }
        assert forall|a: int, b: int|
            0 <= a < b < fin.all_vars@.len() implies #[trigger] fin.all_vars@[a]
            != #[trigger] fin.all_vars@[b] by {
            let oa = if a < 4 * ii { a } else { a + 4 };
            let ob = if b < 4 * ii { b } else { b + 4 };
            assert(fin.all_vars@[a] == g0.all_vars@[oa] && fin.all_vars@[b]
                == g0.all_vars@[ob]);
        }
        assert forall|v: cassowary::Variable|
            solver_edit_vars(fin.solver).contains(v) implies #[trigger] fin.all_vars@.contains(
            v,
        ) by {
            assert(solver_edit_vars(g0.solver).contains(v));
            assert(g0.all_vars@.contains(v));
            let p = choose|p: int| 0 <= p < g0.all_vars@.len() && g0.all_vars@[p] == v;
            if 4 * ii <= p < 4 * ii + 4 {
                let e: Edge = if p == 4 * ii {
                    Edge::Left
                } else if p == 4 * ii + 1 {
                    Edge::Top
                } else if p == 4 * ii + 2 {
                    Edge::Right
                } else {
                    Edge::Bottom
                };
                assert(v == entry_var(g0.entries@[ii], e));
                assert(edge_num(e) < 4);
                assert(!solver_edit_vars(fin.solver).contains(v));
                assert(false);
            } else if p < 4 * ii {
                assert(fin.all_vars@[p] == v);
            } else {
                assert(fin.all_vars@[p - 4] == v);
            }
        }
        // Registration and edit mode after removal.
        assert forall|x: usize|
            #[trigger] fin.registered(x) <==> (g0.registered(x) && x != w) by {
            if fin.registered(x) {
                let j = choose|j: int|
                    0 <= j < fin.entries@.len() && (#[trigger] fin.entries@[j]).widget == x;
                let oj = if j < ii { j } else { j + 1 };
                assert(g0.entries@[oj] == fin.entries@[j]);
                assert(g0.registered(x));
                if x == w {
                    assert(g0.entries@[oj].widget == g0.entries@[ii].widget && oj != ii);
                    assert(false);
                }
            }
            if g0.registered(x) && x != w {
                let oj = choose|oj: int|
                    0 <= oj < g0.entries@.len() && (#[trigger] g0.entries@[oj]).widget == x;
                assert(oj != ii);
                let j = if oj < ii { oj } else { oj - 1 };
                assert(fin.entries@[j] == g0.entries@[oj]);
            }
        }
        assert forall|x: usize, e: Edge|
            #[trigger] fin.is_edit(x, e) <==> (g0.is_edit(x, e) && x != w) by {
            if fin.is_edit(x, e) {
                let j = choose|j: int|
                    0 <= j < fin.entries@.len() && (#[trigger] fin.entries@[j]).widget == x
                        && solver_edit_vars(fin.solver).contains(
                        entry_var(fin.entries@[j], e),
                    );
                let oj = if j < ii { j } else { j + 1 };
                assert(g0.entries@[oj] == fin.entries@[j]);
                assert(solver_edit_vars(g0.solver).contains(entry_var(g0.entries@[oj], e)));
                assert(g0.is_edit(x, e));
                if x == w {
                    assert(g0.entries@[oj].widget == g0.entries@[ii].widget && oj != ii);
                    assert(false);
                }
            }
            if g0.is_edit(x, e) && x != w {
                let oj = choose|oj: int|
                    0 <= oj < g0.entries@.len() && (#[trigger] g0.entries@[oj]).widget == x
                        && solver_edit_vars(g0.solver).contains(
                        entry_var(g0.entries@[oj], e),
                    );
                assert(oj != ii);
                let v = entry_var(g0.entries@[oj], e);
                assert(solver_edit_vars(fin.solver).contains(v)) by {
                    if !solver_edit_vars(fin.solver).contains(v) {
                        let e2 = choose|e2: Edge|
                            #[trigger] entry_var(g0.entries@[ii], e2) == v && edge_num(e2) < 4;
                        g0.lemma_var_inj(oj, ii, e, e2);
                    }
                }
                let j = if oj < ii { oj } else { oj - 1 };
                assert(fin.entries@[j] == g0.entries@[oj]);
                assert(fin.is_edit(x, e));
            }
        }
    }

    /// Whether the layout variable `(w, e)` is in edit mode.
    pub fn has_edit_variable(&self, w: usize, e: Edge) -> (r: bool)
        requires
            self.wf(),
        ensures
            r == self.is_edit(w, e),
    {
        match self.find_entry(w) {
            None => {
                proof {
                    assert forall|i: int|
                        0 <= i < self.entries@.len() implies (#[trigger] self.entries@[i]).widget
                        != w by {
                        if self.entries@[i].widget == w {
                            assert(self.registered(w));
                        }
                    }
                }
                false
            },
            Some(i) => {
                let en = &self.entries[i];
                let v = match e {
                    Edge::Left => en.left,
                    Edge::Top => en.top,
                    Edge::Right => en.right,
                    Edge::Bottom => en.bottom,
                };
                let r = solver_has_edit(&self.solver, &v);
                proof {
                    if r {
                        assert(self.is_edit(w, e));
                    } else if self.is_edit(w, e) {
                        let j = choose|j: int|
                            0 <= j < self.entries@.len() && (#[trigger] self.entries@[j]).widget
                                == w && solver_edit_vars(self.solver).contains(
                                entry_var(self.entries@[j], e),
                            );
                        if j != i {
                            assert(self.entries@[j].widget == self.entries@[i as int].widget);
                            assert(false);
                        }
                    }
                }
                r
            },
        }
    }

    /// Puts the layout variable `(w, e)` into edit mode at the given
    /// priority, so that values can be suggested for it. Fails with
    /// DuplicateEditVariable exactly when it is already in edit mode.
    pub fn add_edit_variable(&mut self, w: usize, e: Edge, strength: Strength) -> (r: Result<
        (),
        SolverError,
    >)
        requires
            old(self).wf(),
            old(self).registered(w),
            strength != Strength::Required,
        ensures
            final(self).wf(),
            r is Err <==> old(self).is_edit(w, e),
            r matches Err(err) ==> err == SolverError::DuplicateEditVariable,
            forall|x: usize| #[trigger] final(self).registered(x) == old(self).registered(x),
            forall|x: usize, e2: Edge|
                #[trigger] final(self).is_edit(x, e2) <==> (old(self).is_edit(x, e2) || (r is Ok
                    && x == w && e2 == e)),
    {
        let ghost g0 = *self;
        if self.has_edit_variable(w, e) {
            return Err(SolverError::DuplicateEditVariable);
        }
        let i = match self.find_entry(w) {
            Some(i) => i,
            None => {
                proof {
                    assert(false);
                }
                return Err(SolverError::Internal);
            },
        };
        let en = &self.entries[i];
        let v = match e {
            Edge::Left => en.left,
            Edge::Top => en.top,
            Edge::Right => en.right,
            Edge::Bottom => en.bottom,
        };
        proof {
            assert(v == entry_var(g0.entries@[i as int], e));
            if solver_edit_vars(self.solver).contains(v) {
                assert(g0.is_edit(w, e));
            }
        }
        solver_add_edit(&mut self.solver, v, strength);
        proof {
            let fin = *self;
            assert forall|v2: cassowary::Variable|
                solver_edit_vars(fin.solver).contains(v2) implies #[trigger] fin.all_vars@.contains(
                v2,
            ) by {
                if v2 == v {
                    assert(fin.all_vars@[4 * i + edge_num(e)] == v);
                } else {
                    assert(solver_edit_vars(g0.solver).contains(v2));
                }
            }
            assert forall|x: usize, e2: Edge|
                #[trigger] fin.is_edit(x, e2) <==> (g0.is_edit(x, e2) || (x == w && e2
                    == e)) by {
                if fin.is_edit(x, e2) {
                    let j = choose|j: int|
                        0 <= j < fin.entries@.len() && (#[trigger] fin.entries@[j]).widget == x
                            && solver_edit_vars(fin.solver).contains(
                            entry_var(fin.entries@[j], e2),
                        );
                    if entry_var(fin.entries@[j], e2) == v {
                        g0.lemma_var_inj(j, i as int, e2, e);
                        assert(x == w && e2 == e);
                    } else {
                        assert(g0.is_edit(x, e2));
                    }
                }
                if g0.is_edit(x, e2) {
                    let j = choose|j: int|
                        0 <= j < g0.entries@.len() && (#[trigger] g0.entries@[j]).widget == x
                            && solver_edit_vars(g0.solver).contains(entry_var(g0.entries@[j], e2));
                    assert(solver_edit_vars(fin.solver).contains(entry_var(fin.entries@[j], e2)));
                }
                if x == w && e2 == e {
                    assert(fin.entries@[i as int].widget == w);
                    assert(solver_edit_vars(fin.solver).contains(v));
                }
            }
        }
        Ok(())
    }

    /// Suggests a value for the edit variable `(w, e)` and re-solves;
    /// values outside the solver's 32-bit pixel band are clamped to it.
    /// Fails with UnknownEditVariable exactly when `(w, e)` is not in
    /// edit mode. On success, a LayoutChanged event is queued to the
    /// global sink for every widget whose resolved geometry moved.
    pub fn suggest_value(&mut self, w: usize, e: Edge, value: i64, queue: &mut EventQueue) -> (r:
        Result<(), SolverError>)
        requires
            old(self).wf(),
            old(self).registered(w),
        ensures
            final(self).wf(),
            (r matches Err(err) && err == SolverError::UnknownEditVariable) <==> !old(
                self,
            ).is_edit(w, e),
            r matches Err(err) ==> (err == SolverError::UnknownEditVariable || err
                == SolverError::Internal),
            forall|x: usize| #[trigger] final(self).registered(x) == old(self).registered(x),
            forall|x: usize, e2: Edge|
                #[trigger] final(self).is_edit(x, e2) == old(self).is_edit(x, e2),
            layout_events_appended(*old(queue), *final(queue), *old(self)),
            r matches Err(err) && err == SolverError::UnknownEditVariable ==> final(queue)@ == old(
                queue,
            )@,
    {
        let ghost g0 = *self;
        let i = match self.find_entry(w) {
            Some(i) => i,
            None => {
                proof {
                    assert(false);
                }
                return Err(SolverError::Internal);
            },
        };
        let en = &self.entries[i];
        let v = match e {
            Edge::Left => en.left,
            Edge::Top => en.top,
            Edge::Right => en.right,
            Edge::Bottom => en.bottom,
        };
        proof {
            assert(v == entry_var(g0.entries@[i as int], e));
            if solver_edit_vars(self.solver).contains(v) {
                assert(g0.is_edit(w, e));
            }
            if g0.is_edit(w, e) {
                let j = choose|j: int|
                    0 <= j < g0.entries@.len() && (#[trigger] g0.entries@[j]).widget == w
                        && solver_edit_vars(g0.solver).contains(entry_var(g0.entries@[j], e));
                if j != i {
                    assert(g0.entries@[j].widget == g0.entries@[i as int].widget);
                    assert(false);
                }
            }
        }
        let res = solver_suggest(&mut self.solver, v, clamp_suggestion(value));
        proof {
            lemma_edit_stable(g0, *self);
        }
        match res {
            Err(err) => Err(err),
            Ok(()) => {
                self.emit_changes(queue);
                Ok(())
            },
        }
    }

    /// After a re-solve, queues LayoutChanged(widget) to the global sink
    /// for every registered widget one of whose variables changed.
    fn emit_changes(&mut self, queue: &mut EventQueue)
        requires
            old(self).wf(),
        ensures
            final(self).wf(),
            forall|x: usize| #[trigger] final(self).registered(x) == old(self).registered(x),
            forall|x: usize, e2: Edge|
                #[trigger] final(self).is_edit(x, e2) == old(self).is_edit(x, e2),
            layout_events_appended(*old(queue), *final(queue), *old(self)),
    {
        let ghost g0 = *self;
        let changed = solver_fetch_changes(&mut self.solver);
        proof {
            lemma_edit_stable(g0, *self);
        }
        self.emit_for(&changed, queue);
        proof {
            lemma_change_events_sound(*self, changed@);
            assert forall|m: int|
                old(queue)@.len() <= m < queue@.len() implies is_layout_event(
                #[trigger] queue@[m],
                g0,
            ) by {
                let ev = change_events(self.entries_view(), changed@)[m - old(queue)@.len()];
                assert(queue@[m] == ev);
                assert(is_layout_event(ev, *self));
                let lc = ev.event->Layout_0;
                assert(self.registered(lc.0) == g0.registered(lc.0));
            }
        }
    }

    /// Queues one LayoutChanged notification to the global sink for each
    /// changed variable that belongs to a registered widget — exactly
    /// the list `change_events` describes, no more and no fewer.
    pub fn emit_for(&self, changed: &Vec<cassowary::Variable>, queue: &mut EventQueue)
        requires
            self.wf(),
        ensures
            final(queue)@ == old(queue)@ + change_events(self.entries_view(), changed@),
    {
        let ghost full = change_events(self.entries@, changed@);
        let mut ci: usize = 0;
        proof {
            assert(changed@.skip(0) =~= changed@);
        }
        while ci < changed.len()
            invariant
                self.wf(),
                0 <= ci <= changed@.len(),
                queue@ + change_events(self.entries@, changed@.skip(ci as int)) == old(queue)@
                    + change_events(self.entries@, changed@),
            decreases changed@.len() - ci,
        {
            let cv = changed[ci];
            let n = self.entries.len();
            let mut j: usize = 0;
            let mut found = false;
            while j < n && !found
                invariant
                    self.wf(),
                    n == self.entries@.len(),
                    0 <= j <= n,
                    !found ==> forall|m: int|
                        0 <= m < j ==> !entry_matches(#[trigger] self.entries@[m], cv),
                    found ==> (j < n && entry_matches(self.entries@[j as int], cv) && forall|m: int|
                        0 <= m < j ==> !entry_matches(#[trigger] self.entries@[m], cv)),
                decreases n - j, (if found {
                    0int
                } else {
                    1int
                }),
            {
                let en = &self.entries[j];
                if var_eq(&en.left, &cv) || var_eq(&en.top, &cv) || var_eq(&en.right, &cv)
                    || var_eq(&en.bottom, &cv) {
                    found = true;
                } else {
                    j = j + 1;
                }
            }
            let ghost qpre = queue@;
            proof {
                lemma_owner_idx(self.entries@, cv);
            }
            if found {
                let wid = self.entries[j].widget;
                queue.push(EventAddress::Ui, Event::Layout(LayoutChanged(wid)));
                proof {
                    assert(owner_idx(self.entries@, cv) == j as int);
                }
            } else {
                proof {
                    assert(owner_idx(self.entries@, cv) == -1);
                }
            }
            proof {
                let tail = changed@.skip(ci as int);
                assert(tail[0] == changed@[ci as int]);
                assert(tail.drop_first() =~= changed@.skip(ci + 1int));
                assert(change_events(self.entries@, tail) == (if owner_idx(self.entries@, cv)
                    >= 0 {
                    seq![
                        QueueEntry {
                            address: EventAddress::Ui,
                            event: Event::Layout(
                                LayoutChanged(
                                    self.entries@[owner_idx(self.entries@, cv)].widget,
                                ),
                            ),
                        },
                    ]
                } else {
                    Seq::<QueueEntry>::empty()
                }) + change_events(self.entries@, changed@.skip(ci + 1int)));
                assert(queue@ + change_events(self.entries@, changed@.skip(ci + 1int)) =~= old(
                    queue,
                )@ + change_events(self.entries@, changed@));
            }
            ci = ci + 1;
        }
        proof {
            assert(changed@.skip(changed@.len() as int) =~= Seq::<cassowary::Variable>::empty());
            assert(change_events(self.entries@, changed@.skip(changed@.len() as int))
                =~= Seq::<QueueEntry>::empty());
            assert(final(queue)@ =~= old(queue)@ + change_events(self.entries@, changed@));
        }
    }

    /// The resolved bounds of widget `w` in the solver's current
    /// solution.
    pub fn resolved_bounds(&self, w: usize) -> (r: crate::graph::Bounds)
        requires
            self.wf(),
            self.registered(w),
        ensures
            r.left == self.value_at(w, Edge::Left),
            r.top == self.value_at(w, Edge::Top),
            r.right == self.value_at(w, Edge::Right),
            r.bottom == self.value_at(w, Edge::Bottom),
    {
        let i = match self.find_entry(w) {
            Some(i) => i,
            None => {
                proof {
                    assert(false);
                }
                0
            },
        };
        let en = &self.entries[i];
        let r = crate::graph::Bounds {
            left: solver_get_value(&self.solver, &en.left),
            top: solver_get_value(&self.solver, &en.top),
            right: solver_get_value(&self.solver, &en.right),
            bottom: solver_get_value(&self.solver, &en.bottom),
        };
        proof {
            let j = choose|j: int|
                0 <= j < self.entries@.len() && (#[trigger] self.entries@[j]).widget == w;
            if j != i {
                assert(self.entries@[j].widget == self.entries@[i as int].widget);
                assert(false);
            }
        }
        r
    }

    /// Adds structural constraints and re-solves; layout changes are
    /// queued to the global sink. Widgets and edit state are untouched.
    pub fn add_constraints(&mut self, constraints: Vec<cassowary::Constraint>, queue: &mut EventQueue)
        requires
            old(self).wf(),
        ensures
            final(self).wf(),
            forall|x: usize| #[trigger] final(self).registered(x) == old(self).registered(x),
            forall|x: usize, e2: Edge|
                #[trigger] final(self).is_edit(x, e2) == old(self).is_edit(x, e2),
            layout_events_appended(*old(queue), *final(queue), *old(self)),
    {
        let ghost g0 = *self;
        let mut rest = constraints;
        while rest.len() > 0
            invariant
                self.wf(),
                self.entries@ == g0.entries@,
                self.all_vars@ == g0.all_vars@,
                forall|v: cassowary::Variable|
                    #[trigger] solver_edit_vars(self.solver).contains(v) == solver_edit_vars(
                        g0.solver,
                    ).contains(v),
            decreases rest.len(),
        {
            let c = rest.remove(0);
            let ghost pre = *self;
            let _ = solver_add_constraint(&mut self.solver, c);
            proof {
                lemma_edit_stable(pre, *self);
            }
        }
        proof {
            lemma_edit_stable(g0, *self);
        }
        let ghost gmid = *self;
        self.emit_changes(queue);
        proof {
            assert forall|x: usize| #[trigger] self.registered(x) == g0.registered(x) by {
                assert(self.registered(x) == gmid.registered(x));
            }
            assert forall|x: usize, e2: Edge|
                #[trigger] self.is_edit(x, e2) == g0.is_edit(x, e2) by {
                assert(self.is_edit(x, e2) == gmid.is_edit(x, e2));
            }
            assert(layout_events_appended(*old(queue), *queue, g0)) by {
                assert(layout_events_appended(*old(queue), *queue, gmid));
                assert forall|m: int|
                    old(queue)@.len() <= m < queue@.len() implies is_layout_event(
                    #[trigger] queue@[m],
                    g0,
                ) by {
                    assert(is_layout_event(queue@[m], gmid));
                    let lc = queue@[m].event->Layout_0;
                    assert(gmid.registered(lc.0) == g0.registered(lc.0));
                }
            }
        }
    }

    /// Removes structural constraints and re-solves; layout changes are
    /// queued to the global sink. Widgets and edit state are untouched.
    pub fn remove_constraints(&mut self, constraints: &Vec<cassowary::Constraint>, queue: &mut EventQueue)
        requires
            old(self).wf(),
        ensures
            final(self).wf(),
            forall|x: usize| #[trigger] final(self).registered(x) == old(self).registered(x),
            forall|x: usize, e2: Edge|
                #[trigger] final(self).is_edit(x, e2) == old(self).is_edit(x, e2),
            layout_events_appended(*old(queue), *final(queue), *old(self)),
    {
        let ghost g0 = *self;
        let mut i: usize = 0;
        while i < constraints.len()
            invariant
                self.wf(),
                self.entries@ == g0.entries@,
                self.all_vars@ == g0.all_vars@,
                forall|v: cassowary::Variable|
                    #[trigger] solver_edit_vars(self.solver).contains(v) == solver_edit_vars(
                        g0.solver,
                    ).contains(v),
            decreases constraints.len() - i,
        {
            let ghost pre = *self;
            let _ = solver_remove_constraint(&mut self.solver, &constraints[i]);
            proof {
                lemma_edit_stable(pre, *self);
            }
            i = i + 1;
        }
        proof {
            lemma_edit_stable(g0, *self);
        }
        let ghost gmid = *self;
        self.emit_changes(queue);
        proof {
            assert forall|x: usize| #[trigger] self.registered(x) == g0.registered(x) by {
                assert(self.registered(x) == gmid.registered(x));
            }
            assert forall|x: usize, e2: Edge|
                #[trigger] self.is_edit(x, e2) == g0.is_edit(x, e2) by {
                assert(self.is_edit(x, e2) == gmid.is_edit(x, e2));
            }
            assert(layout_events_appended(*old(queue), *queue, g0)) by {
                assert(layout_events_appended(*old(queue), *queue, gmid));
                assert forall|m: int|
                    old(queue)@.len() <= m < queue@.len() implies is_layout_event(
                    #[trigger] queue@[m],
                    g0,
                ) by {
                    assert(is_layout_event(queue@[m], gmid));
                    let lc = queue@[m].event->Layout_0;
                    assert(gmid.registered(lc.0) == g0.registered(lc.0));
                }
            }
        }
    }

    /// Builds the two constraints that pin widget `w` to the requested
    /// width and height (clamped to the solver's 32-bit pixel band) at
    /// the given strength.
    pub fn size_constraints(&self, w: usize, width: i64, height: i64, strength: Strength) -> (r:
        Vec<cassowary::Constraint>)
        requires
            self.wf(),
            self.registered(w),
        ensures
            r@.len() == 2,
    {
        let i = match self.find_entry(w) {
            Some(i) => i,
            None => {
                proof {
                    assert(false);
                }
                0
            },
        };
        let en = &self.entries[i];
        let mut r: Vec<cassowary::Constraint> = Vec::new();
        r.push(make_diff_constraint(en.right, en.left, clamp_suggestion(width), strength));
        r.push(make_diff_constraint(en.bottom, en.top, clamp_suggestion(height), strength));
        r
    }
}

/// Whether one of the four variables of entry `en` is `v`.
pub open spec fn entry_matches(en: VarEntry, v: cassowary::Variable) -> bool {
    en.left == v || en.top == v || en.right == v || en.bottom == v
}

/// The first registry entry one of whose variables is `v`, or -1 when
/// no entry holds it.
pub open spec fn owner_idx(entries: Seq<VarEntry>, v: cassowary::Variable) -> int
    decreases entries.len(),
{
    if entries.len() == 0 {
        -1
    } else if entry_matches(entries[0], v) {
        0
    } else {
        let r = owner_idx(entries.drop_first(), v);
        if r == -1 {
            -1
        } else {
            r + 1
        }
    }
}

/// `owner_idx` is the first matching entry, and -1 exactly when none
/// matches.
pub proof fn lemma_owner_idx(entries: Seq<VarEntry>, v: cassowary::Variable)
    ensures
        -1 <= owner_idx(entries, v) < entries.len(),
        owner_idx(entries, v) >= 0 ==> entry_matches(entries[owner_idx(entries, v)], v)
            && (forall|m: int|
            0 <= m < owner_idx(entries, v) ==> !entry_matches(#[trigger] entries[m], v)),
        owner_idx(entries, v) == -1 ==> forall|m: int|
            0 <= m < entries.len() ==> !entry_matches(#[trigger] entries[m], v),
    decreases entries.len(),
{
    if entries.len() > 0 && !entry_matches(entries[0], v) {
        lemma_owner_idx(entries.drop_first(), v);
        assert forall|m: int|
            0 <= m < entries.len() && owner_idx(entries, v) == -1 implies !entry_matches(
            #[trigger] entries[m],
            v,
        ) by {
            if m > 0 {
                assert(entries.drop_first()[m - 1] == entries[m]);
            }
        }
        if owner_idx(entries, v) >= 0 {
            assert(entries.drop_first()[owner_idx(entries.drop_first(), v)] == entries[owner_idx(
                entries,
                v,
            )]);
            assert forall|m: int|
                0 <= m < owner_idx(entries, v) implies !entry_matches(
                #[trigger] entries[m],
                v,
            ) by {
                if m > 0 {
                    assert(entries.drop_first()[m - 1] == entries[m]);
                }
            }
        }
    }
}

/// The LayoutChanged notifications a list of changed variables yields:
/// one notification per changed variable that belongs to a registry
/// entry, named for the first entry holding it, in change order.
pub open spec fn change_events(entries: Seq<VarEntry>, cs: Seq<cassowary::Variable>) -> Seq<
    QueueEntry,
>
    decreases cs.len(),
{
    if cs.len() == 0 {
        Seq::empty()
    } else {
        (if owner_idx(entries, cs[0]) >= 0 {
            seq![
                QueueEntry {
                    address: EventAddress::Ui,
                    event: Event::Layout(LayoutChanged(entries[owner_idx(entries, cs[0])].widget)),
                },
            ]
        } else {
            Seq::<QueueEntry>::empty()
        }) + change_events(entries, cs.drop_first())
    }
}

/// Every notification a change list yields goes to the global sink and
/// names a registered widget.
pub proof fn lemma_change_events_sound(s: LimnSolver, cs: Seq<cassowary::Variable>)
    ensures
        forall|m: int|
            0 <= m < change_events(s.entries_view(), cs).len() ==> is_layout_event(
                #[trigger] change_events(s.entries_view(), cs)[m],
                s,
            ),
    decreases cs.len(),
{
    let es = s.entries_view();
    if cs.len() > 0 {
        lemma_change_events_sound(s, cs.drop_first());
        lemma_owner_idx(es, cs[0]);
        let head: Seq<QueueEntry> = if owner_idx(es, cs[0]) >= 0 {
            let oi = owner_idx(es, cs[0]);
            assert(s.registered(es[oi].widget)) by {
                assert(0 <= oi < es.len() && es[oi].widget == es[oi].widget);
            }
            seq![
                QueueEntry {
                    address: EventAddress::Ui,
                    event: Event::Layout(LayoutChanged(es[oi].widget)),
                },
            ]
        } else {
            Seq::<QueueEntry>::empty()
        };
        assert forall|m: int|
            0 <= m < change_events(es, cs).len() implies is_layout_event(
            #[trigger] change_events(es, cs)[m],
            s,
        ) by {
            let rest = change_events(es, cs.drop_first());
            if m >= head.len() {
                assert(change_events(es, cs)[m] == rest[m - head.len()]);
            }
        }
    }
}

/// Whether a queue entry is a LayoutChanged notification to the global
/// sink for a widget registered with `s`.
pub open spec fn is_layout_event(entry: QueueEntry, s: LimnSolver) -> bool {
    &&& entry.address == EventAddress::Ui
    &&& entry.event matches Event::Layout(lc) && s.registered(lc.0)
}

/// Whether `after` is `before` with only LayoutChanged notifications for
/// registered widgets appended.
pub open spec fn layout_events_appended(
    before: EventQueue,
    after: EventQueue,
    s: LimnSolver,
) -> bool {
    &&& after@.len() >= before@.len()
    &&& forall|m: int| 0 <= m < before@.len() ==> after@[m] == before@[m]
    &&& forall|m: int| before@.len() <= m < after@.len() ==> is_layout_event(#[trigger] after@[m], s)
}

/// Two solver integrations with the same registry and the same edit-set
/// membership agree on registration and edit mode.
proof fn lemma_edit_stable(a: LimnSolver, b: LimnSolver)
    requires
        a.entries@ == b.entries@,
        forall|v: cassowary::Variable|
            #[trigger] solver_edit_vars(b.solver).contains(v) == solver_edit_vars(
                a.solver,
            ).contains(v),
    ensures
        forall|x: usize| #[trigger] b.registered(x) == a.registered(x),
        forall|x: usize, e2: Edge| #[trigger] b.is_edit(x, e2) == a.is_edit(x, e2),
{
    assert forall|x: usize, e2: Edge| #[trigger] b.is_edit(x, e2) == a.is_edit(x, e2) by {
        if a.is_edit(x, e2) {
            let j = choose|j: int|
                0 <= j < a.entries@.len() && (#[trigger] a.entries@[j]).widget == x
                    && solver_edit_vars(a.solver).contains(entry_var(a.entries@[j], e2));
            assert(solver_edit_vars(b.solver).contains(entry_var(b.entries@[j], e2)));
        }
        if b.is_edit(x, e2) {
            let j = choose|j: int|
                0 <= j < b.entries@.len() && (#[trigger] b.entries@[j]).widget == x
                    && solver_edit_vars(b.solver).contains(entry_var(b.entries@[j], e2));
            assert(solver_edit_vars(a.solver).contains(entry_var(a.entries@[j], e2)));
        }
    }
}


} // verus!
