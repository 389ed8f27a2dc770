//! The theory-extension protocol: the capability interface through which the
//! host search loop and an attached decision procedure communicate, the
//! call-scoped argument views it passes, clause handles, and the no-op theory.

use crate::lits::Lit;
use vstd::prelude::*;
use vstd::string::StringExecFns;

verus! {

/// The reserved handle code that denotes "no clause".
pub const UNDEF_CODE: u32 = 0xFFFF_FFFF;

/// The reserved handle code for a non-dereferenceable marker clause.
pub const SPECIAL_CODE: u32 = 0xFFFF_FFFE;

/// An opaque, copyable, fixed-width handle into external clause storage.
///
/// Two codes are reserved sentinels the allocator never issues for a live
/// clause: `UNDEF_CODE` (no clause) and `SPECIAL_CODE` (a marker).
#[derive(Clone, Copy, PartialEq, Eq, Structural, Hash, Debug)]
pub struct ClauseRef {
    code: u32,
}

impl ClauseRef {
    /// The raw fixed-width representation of this handle.
    pub closed spec fn spec_code(self) -> u32 {
        self.code
    }

    /// The handle a raw code stands for.
    pub closed spec fn spec_from_raw(code: u32) -> ClauseRef {
        ClauseRef { code }
    }

    /// The "no clause" sentinel.
    pub fn undef() -> (r: ClauseRef)
        ensures
            r.spec_code() == UNDEF_CODE,
    {
        ClauseRef { code: UNDEF_CODE }
    }

    /// The non-dereferenceable marker sentinel.
    pub fn special() -> (r: ClauseRef)
        ensures
            r.spec_code() == SPECIAL_CODE,
    {
        ClauseRef { code: SPECIAL_CODE }
    }

    /// Rebuilds a handle from its raw representation, bit for bit.
    pub fn from_raw(code: u32) -> (r: ClauseRef)
        ensures
            r == ClauseRef::spec_from_raw(code),
            r.spec_code() == code,
    {
        ClauseRef { code }
    }

    /// The raw representation of this handle, bit for bit.
    pub fn to_raw(self) -> (r: u32)
        ensures
            r == self.spec_code(),
    {
        self.code
    }

    /// What `render` prints: the sentinels symbolically, every other handle
    /// as a tagged decimal.
    pub open spec fn spec_render(self) -> Seq<char> {
        if self.spec_code() == UNDEF_CODE {
            "crUNDEF"@
        } else if self.spec_code() == SPECIAL_CODE {
            "crSPECIAL"@
        } else {
            "cr"@ + dec_chars(self.spec_code() as int)
        }
    }

    /// The diagnostic form of this handle.
    pub fn render(self) -> (r: String)
        ensures
            r@ == self.spec_render(),
    {
        if self.code == UNDEF_CODE {
            String::from_str("crUNDEF")
        } else if self.code == SPECIAL_CODE {
            String::from_str("crSPECIAL")
        } else {
            let mut s = String::from_str("cr");
            let digits = dec_string(self.code);
            s.append(digits.as_str());
            s
        }
    }
}

/// Law: the handle/raw conversion is bit-identical both ways: rebuilding a
/// handle from its raw code gives the handle back, and reading the raw code
/// of a rebuilt handle gives the code back.
pub proof fn lemma_clause_ref_raw_round_trip(c: ClauseRef, code: u32)
    ensures
        ClauseRef::spec_from_raw(c.spec_code()) == c,
        ClauseRef::spec_from_raw(code).spec_code() == code,
{
}

/// The character of a single decimal digit.
pub open spec fn digit_char(d: int) -> char {
    if d == 0 {
        '0'
    } else if d == 1 {
        '1'
    } else if d == 2 {
        '2'
    } else if d == 3 {
        '3'
    } else if d == 4 {
        '4'
    } else if d == 5 {
        '5'
    } else if d == 6 {
        '6'
    } else if d == 7 {
        '7'
    } else if d == 8 {
        '8'
    } else {
        '9'
    }
}

/// The decimal form of a nonnegative number, most significant digit first.
pub open spec fn dec_chars(n: int) -> Seq<char>
    decreases n,
{
    if n < 10 {
        seq![digit_char(n)]
    } else {
        dec_chars(n / 10).push(digit_char(n % 10))
    }
}

fn digit_str(d: u32) -> (r: &'static str)
    requires
        d < 10,
    ensures
        r@ == seq![digit_char(d as int)],
{
    match d {
        0u32 => {
            proof {
                reveal_strlit("0");
                assert("0"@ =~= seq![digit_char(0)]);
            }
            "0"
        },
        1u32 => {
            proof {
                reveal_strlit("1");
                assert("1"@ =~= seq![digit_char(1)]);
            }
            "1"
        },
        2u32 => {
            proof {
                reveal_strlit("2");
                assert("2"@ =~= seq![digit_char(2)]);
            }
            "2"
        },
        3u32 => {
            proof {
                reveal_strlit("3");
                assert("3"@ =~= seq![digit_char(3)]);
            }
            "3"
        },
        4u32 => {
            proof {
                reveal_strlit("4");
                assert("4"@ =~= seq![digit_char(4)]);
            }
            "4"
        },
        5u32 => {
            proof {
                reveal_strlit("5");
                assert("5"@ =~= seq![digit_char(5)]);
            }
            "5"
        },
        6u32 => {
            proof {
                reveal_strlit("6");
                assert("6"@ =~= seq![digit_char(6)]);
            }
            "6"
        },
        7u32 => {
            proof {
                reveal_strlit("7");
                assert("7"@ =~= seq![digit_char(7)]);
            }
            "7"
        },
        8u32 => {
            proof {
                reveal_strlit("8");
                assert("8"@ =~= seq![digit_char(8)]);
            }
            "8"
        },
        _ => {
            proof {
                reveal_strlit("9");
                assert("9"@ =~= seq![digit_char(9)]);
            }
            "9"
        },
    }
}

/// The decimal form of `n` as a string.
fn dec_string(n: u32) -> (r: String)
    ensures
        r@ == dec_chars(n as int),
    decreases n,
{
    if n < 10 {
        let mut s = String::new();
        s.append(digit_str(n));
        proof {
            assert(s@ =~= dec_chars(n as int));
        }
        s
    } else {
        let mut s = dec_string(n / 10);
        s.append(digit_str(n % 10));
        proof {
            assert(s@ =~= dec_chars(n as int));
        }
        s
    }
}

/// A conflict lemma is valid against a model when it is non-empty and every
/// one of its literals is the negation of a literal assigned in the model —
/// the clause is the negation of a subset of the model.
pub open spec fn valid_conflict_clause(model: Seq<Lit>, clause: Seq<Lit>) -> bool {
    &&& clause.len() > 0
    &&& forall|i: int|
        0 <= i < clause.len() ==> model.contains((#[trigger] clause[i]).spec_negate())
}

/// Checks a conflict clause against a model, literal by literal: the
/// executable form of `valid_conflict_clause`, for holding a theory's output
/// to the protocol.
pub fn is_valid_conflict_clause(model: &[Lit], clause: &[Lit]) -> (r: bool)
    ensures
        r == valid_conflict_clause(model@, clause@),
{
    if clause.len() == 0 {
        return false;
    }
    let mut i: usize = 0;
    while i < clause.len()
        invariant
            0 <= i <= clause@.len(),
            forall|j: int| 0 <= j < i ==> model@.contains((#[trigger] clause@[j]).spec_negate()),
        decreases clause@.len() - i,
    {
        if !model_contains(model, clause[i].negate()) {
            return false;
        }
        i = i + 1;
    }
    true
}

/// Whether the model assigns exactly the literal `l`.
fn model_contains(model: &[Lit], l: Lit) -> (r: bool)
    ensures
        r == model@.contains(l),
{
    let mut i: usize = 0;
    while i < model.len()
        invariant
            0 <= i <= model@.len(),
            forall|j: int| 0 <= j < i ==> model@[j] != l,
        decreases model@.len() - i,
    {
        if model[i] == l {
            proof {
                assert(model@.contains(l)) by {
                    assert(0 <= i < model@.len() && model@[i as int] == l);
                }
            }
            return true;
        }
        i = i + 1;
    }
    false
}

/// The transient, call-scoped view a check call works through: the current
/// trail (candidate model) and the conflict-output buffer. It owns no state
/// past the call that supplied it.
pub struct TheoryArg {
    model: Vec<Lit>,
    conflict: Option<Vec<Lit>>,
}

impl TheoryArg {
    /// The candidate model the host supplied.
    pub closed spec fn model_seq(&self) -> Seq<Lit> {
        self.model@
    }

    /// The conflict raised through this view so far, if any.
    pub closed spec fn spec_conflict(&self) -> Option<Seq<Lit>> {
        match self.conflict {
            Some(c) => Some(c@),
            None => None,
        }
    }

    /// A fresh view over the given trail, with no conflict raised.
    pub fn new(model: Vec<Lit>) -> (r: TheoryArg)
        ensures
            r.model_seq() == model@,
            r.spec_conflict() is None,
    {
        TheoryArg { model, conflict: None }
    }

    /// The current trail: the candidate model assigned so far.
    pub fn model(&self) -> (r: &[Lit])
        ensures
            r@ == self.model_seq(),
    {
        self.model.as_slice()
    }

    /// Whether a conflict has been raised through this view.
    pub fn has_conflict(&self) -> (r: bool)
        ensures
            r == self.spec_conflict() is Some,
    {
        self.conflict.is_some()
    }

    /// The conflict clause raised through this view.
    pub fn conflict_clause(&self) -> (r: &Vec<Lit>)
        requires
            self.spec_conflict() is Some,
        ensures
            Some(r@) == self.spec_conflict(),
    {
        match &self.conflict {
            Some(c) => c,
            None => unreached(),
        }
    }

    /// Raises a conflict: records `lemma`, which must be a valid conflict
    /// clause against the current model — non-empty, and the negation of a
    /// subset of the assigned literals.
    pub fn raise_conflict(&mut self, lemma: Vec<Lit>)
        requires
            valid_conflict_clause(old(self).model_seq(), lemma@),
        ensures
            final(self).model_seq() == old(self).model_seq(),
            final(self).spec_conflict() == Some(lemma@),
    {
        self.conflict = Some(lemma);
    }
}

/// The transient, call-scoped view an explanation call works through: the
/// current trail plus a scratch buffer the explanation clause is built in.
/// The produced clause is only valid as long as this view lives.
pub struct ExplainTheoryArg {
    model: Vec<Lit>,
    clause: Vec<Lit>,
}

impl ExplainTheoryArg {
    /// The candidate model the host supplied.
    pub closed spec fn model_seq(&self) -> Seq<Lit> {
        self.model@
    }

    /// The explanation clause built so far.
    pub closed spec fn clause_seq(&self) -> Seq<Lit> {
        self.clause@
    }

    /// A fresh view over the given trail, with an empty scratch buffer.
    pub fn new(model: Vec<Lit>) -> (r: ExplainTheoryArg)
        ensures
            r.model_seq() == model@,
            r.clause_seq() == Seq::<Lit>::empty(),
    {
        ExplainTheoryArg { model, clause: Vec::new() }
    }

    /// The current trail: the candidate model assigned so far.
    pub fn model(&self) -> (r: &[Lit])
        ensures
            r@ == self.model_seq(),
    {
        self.model.as_slice()
    }

    /// The explanation clause built so far.
    pub fn clause(&self) -> (r: &[Lit])
        ensures
            r@ == self.clause_seq(),
    {
        self.clause.as_slice()
    }

    /// Empties the scratch buffer before a new explanation is built.
    pub fn clear_clause(&mut self)
        ensures
            final(self).model_seq() == old(self).model_seq(),
            final(self).clause_seq() == Seq::<Lit>::empty(),
    {
        self.clause.clear();
    }

    /// Appends one literal to the explanation being built.
    pub fn push_lit(&mut self, l: Lit)
        ensures
            final(self).model_seq() == old(self).model_seq(),
            final(self).clause_seq() == old(self).clause_seq().push(l),
    {
        self.clause.push(l);
    }
}

/// The capability interface a theory implements to observe and influence
/// boolean search.
///
/// Its level counter must mirror the host's decision-level stack, maintained
/// in lockstep through paired `create_level`/`pop_levels` calls; no other
/// method moves it. A conflict raised through a check call must be valid
/// against the model checked, which the argument view enforces.
pub trait Theory: Sized {
    /// The depth of the theory's decision-level stack.
    spec fn levels(&self) -> nat;

    /// Whether this theory ever propagates literals onto the trail; only of
    /// such a theory may an explanation be asked.
    spec fn propagates(&self) -> bool;

    /// Checks the full candidate model exhaustively. If the candidate is
    /// theory-inconsistent this must raise a conflict through `acts`; if it
    /// is consistent it must return without side effect, and the candidate
    /// stands as the accepted model.
    fn final_check(&mut self, acts: &mut TheoryArg)
        ensures
            final(acts).model_seq() == old(acts).model_seq(),
            final(self).levels() == old(self).levels(),
            final(self).propagates() == old(self).propagates(),
            old(acts).spec_conflict() is Some ==> final(acts).spec_conflict() == old(
                acts,
            ).spec_conflict(),
            final(acts).spec_conflict() is Some && old(acts).spec_conflict() is None
                ==> valid_conflict_clause(
                old(acts).model_seq(),
                final(acts).spec_conflict().unwrap(),
            ),
    ;

    /// Pushes one backtracking level; called exactly once per decision level
    /// the host pushes.
    fn create_level(&mut self)
        requires
            old(self).levels() < usize::MAX as nat,
        ensures
            final(self).levels() == old(self).levels() + 1,
            final(self).propagates() == old(self).propagates(),
    ;

    /// Pops `n` levels; popping more levels than exist is a contract
    /// violation.
    fn pop_levels(&mut self, n: usize)
        requires
            n as nat <= old(self).levels(),
        ensures
            final(self).levels() == old(self).levels() - n as nat,
            final(self).propagates() == old(self).propagates(),
    ;

    /// The current number of levels.
    fn n_levels(&self) -> (r: usize)
        ensures
            r as nat == self.levels(),
    ;

    /// Checks the partial model so far, best effort: it may raise a conflict
    /// through `acts` on a cheap inconsistency, and may silently skip
    /// detection — `final_check` remains the backstop. The default does
    /// nothing.
    fn partial_check(&mut self, acts: &mut TheoryArg)
        ensures
            final(acts).model_seq() == old(acts).model_seq(),
            final(self).levels() == old(self).levels(),
            final(self).propagates() == old(self).propagates(),
            old(acts).spec_conflict() is Some ==> final(acts).spec_conflict() == old(
                acts,
            ).spec_conflict(),
            final(acts).spec_conflict() is Some && old(acts).spec_conflict() is None
                ==> valid_conflict_clause(
                old(acts).model_seq(),
                final(acts).spec_conflict().unwrap(),
            ),
    {
    }

    /// Explains a literal `p` this theory previously propagated: builds in
    /// `st` a clause that is a theory tautology whose first literal is `p`
    /// and whose other literals are all false under the current model. Asking
    /// this of a theory that never propagates is a contract violation.
    fn explain_propagation_clause(&mut self, p: Lit, st: &mut ExplainTheoryArg)
        requires
            old(self).propagates(),
        ensures
            final(self).levels() == old(self).levels(),
            final(self).propagates() == old(self).propagates(),
            final(st).model_seq() == old(st).model_seq(),
            final(st).clause_seq().len() > 0,
            final(st).clause_seq()[0] == p,
            forall|i: int|
                1 <= i < final(st).clause_seq().len() ==> old(st).model_seq().contains(
                    (#[trigger] final(st).clause_seq()[i]).spec_negate(),
                ),
    ;

    /// Like `explain_propagation_clause`, but called when no further
    /// resolution will happen on the result, so the theory may prefer a
    /// larger, more original explanation. The default forwards to
    /// `explain_propagation_clause`.
    fn explain_propagation_clause_final(&mut self, p: Lit, st: &mut ExplainTheoryArg)
        requires
            old(self).propagates(),
        ensures
            final(self).levels() == old(self).levels(),
            final(self).propagates() == old(self).propagates(),
            final(st).model_seq() == old(st).model_seq(),
            final(st).clause_seq().len() > 0,
            final(st).clause_seq()[0] == p,
            forall|i: int|
                1 <= i < final(st).clause_seq().len() ==> old(st).model_seq().contains(
                    (#[trigger] final(st).clause_seq()[i]).spec_negate(),
                ),
    {
        self.explain_propagation_clause(p, st)
    }

    /// Observational hook: fired when the search learns or derives a new
    /// clause. The default does nothing.
    fn on_new_clause(&mut self, clause: &[Lit])
        ensures
            final(self).levels() == old(self).levels(),
            final(self).propagates() == old(self).propagates(),
    {
    }

    /// Observational hook: fired before clause-memory compaction; any handle
    /// the theory retains is stale until remapped via `on_realloc`. The
    /// default does nothing.
    fn on_start_gc(&mut self)
        ensures
            final(self).levels() == old(self).levels(),
            final(self).propagates() == old(self).propagates(),
    {
    }

    /// Observational hook: fired once per surviving clause moved during
    /// compaction, so the theory can remap handles it stores. The default
    /// does nothing.
    fn on_realloc(&mut self, prev: ClauseRef, curr: ClauseRef)
        ensures
            final(self).levels() == old(self).levels(),
            final(self).propagates() == old(self).propagates(),
    {
    }

    /// Observational hook: fired during unsat-core extraction to record the
    /// clause that justified `lit`. The default does nothing.
    fn on_final_lit_explanation(&mut self, lit: Lit, reason: ClauseRef)
        ensures
            final(self).levels() == old(self).levels(),
            final(self).propagates() == old(self).propagates(),
    {
    }
}

/// The trivial theory used when no theory is attached: it keeps the level
/// count and does nothing else.
pub struct EmptyTheory(usize);

impl EmptyTheory {
    /// New empty theory.
    pub fn new() -> (r: Self)
        ensures
            r.levels() == 0,
            !r.propagates(),
    {
        EmptyTheory(0)
    }
}

impl Default for EmptyTheory {
    fn default() -> (r: Self)
        ensures
            r.levels() == 0,
            !r.propagates(),
    {
        EmptyTheory::new()
    }
}

impl Theory for EmptyTheory {
    closed spec fn levels(&self) -> nat {
        self.0 as nat
    }

    closed spec fn propagates(&self) -> bool {
        false
    }

    /// Every candidate model is consistent for the empty theory: the view is
    /// left untouched, so no conflict is ever raised.
    fn final_check(&mut self, acts: &mut TheoryArg)
        ensures
            *final(acts) == *old(acts),
    {
    }

    /// Every partial model is consistent for the empty theory: the view is
    /// left untouched, so no conflict is ever raised.
    fn partial_check(&mut self, acts: &mut TheoryArg)
        ensures
            *final(acts) == *old(acts),
    {
    }

    fn create_level(&mut self) {
        self.0 = self.0 + 1;
    }

    fn pop_levels(&mut self, n: usize) {
        self.0 = self.0 - n;
    }

    fn n_levels(&self) -> usize {
        self.0
    }

    /// Never called: the empty theory never propagates, so its
    /// precondition cannot be met.
    fn explain_propagation_clause(&mut self, _p: Lit, _st: &mut ExplainTheoryArg) {
        unreached()
    }
}

/// Law: the empty theory never propagates, so asking it to explain a
/// propagated literal is a contract violation — no call site can satisfy
/// that method's precondition.
pub proof fn lemma_empty_theory_never_propagates(t: EmptyTheory)
    ensures
        !t.propagates(),
{
}

} // verus!
