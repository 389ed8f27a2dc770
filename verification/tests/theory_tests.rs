use platsat::lits::{Lit, Var};
use platsat::theory::{
    is_valid_conflict_clause, ClauseRef, EmptyTheory, ExplainTheoryArg, Theory, TheoryArg,
    SPECIAL_CODE, UNDEF_CODE,
};

fn lit(var: u32, sign: bool) -> Lit {
    Lit::new(Var::from_idx(var), sign)
}

#[test]
fn empty_theory_level_scenario() {
    // create_level, create_level, pop_levels(1) leaves one level.
    let mut t = EmptyTheory::new();
    assert_eq!(t.n_levels(), 0);
    t.create_level();
    t.create_level();
    t.pop_levels(1);
    assert_eq!(t.n_levels(), 1);
}

#[test]
fn theory_level_counter_tracks_pushes_and_pops() {
    // After k pushes and pops summing to p <= k, the count is k - p.
    let mut t = EmptyTheory::new();
    for _ in 0..10 {
        t.create_level();
    }
    t.pop_levels(3);
    t.pop_levels(4);
    assert_eq!(t.n_levels(), 3);
    t.pop_levels(3);
    assert_eq!(t.n_levels(), 0);
}

#[test]
fn empty_theory_raises_no_conflict() {
    let model = vec![lit(0, false), lit(1, true), lit(2, false)];
    let mut t = EmptyTheory::new();
    let mut acts = TheoryArg::new(model.clone());
    t.partial_check(&mut acts);
    assert!(!acts.has_conflict());
    assert_eq!(acts.model(), model.as_slice());
    t.final_check(&mut acts);
    assert!(!acts.has_conflict());
    assert_eq!(acts.model(), model.as_slice());
}

#[test]
fn final_check_conflict_is_nonempty_and_all_false() {
    // What a theory that rejects the positive literal of variable 0 does in
    // its final check: blame that literal by raising its negation.
    let model = vec![lit(0, false), lit(1, true)];
    let mut acts = TheoryArg::new(model.clone());
    let target = lit(0, false);
    if acts.model().iter().any(|l| *l == target) {
        acts.raise_conflict(vec![target.negate()]);
    }
    assert!(acts.has_conflict());
    let conflict = acts.conflict_clause();
    // A valid conflict clause is non-empty and the negation of a subset of
    // the model: every literal in it is false under the model.
    assert!(!conflict.is_empty());
    assert!(is_valid_conflict_clause(&model, conflict));
}

#[test]
fn conflict_validity_rejects_empty_and_true_clauses() {
    let model = vec![lit(0, false), lit(1, true)];
    // An empty clause is not a valid conflict.
    assert!(!is_valid_conflict_clause(&model, &[]));
    // A clause holding a literal that is true under the model is not the
    // negation of a subset of the model.
    assert!(!is_valid_conflict_clause(&model, &[lit(0, false)]));
    // A clause over an unassigned variable is not valid either.
    assert!(!is_valid_conflict_clause(&model, &[lit(7, true)]));
    // The negation of an assigned literal is valid.
    assert!(is_valid_conflict_clause(&model, &[lit(0, true)]));
    assert!(is_valid_conflict_clause(&model, &[lit(0, true), lit(1, false)]));
}

#[test]
fn raise_conflict_records_lemma_and_keeps_model() {
    let model = vec![lit(2, false), lit(3, true)];
    let mut acts = TheoryArg::new(model.clone());
    assert!(!acts.has_conflict());
    acts.raise_conflict(vec![lit(2, true), lit(3, false)]);
    assert!(acts.has_conflict());
    assert_eq!(acts.model(), model.as_slice());
    let c = acts.conflict_clause().clone();
    assert_eq!(c.len(), 2);
    assert_eq!(c[0], lit(2, true));
}

#[test]
fn explain_arg_builds_clause_in_scratch_buffer() {
    let model = vec![lit(1, false)];
    let mut st = ExplainTheoryArg::new(model.clone());
    assert_eq!(st.clause().len(), 0);
    st.push_lit(lit(4, false));
    st.push_lit(lit(1, true));
    assert_eq!(st.clause(), &[lit(4, false), lit(1, true)]);
    assert_eq!(st.model(), model.as_slice());
    st.clear_clause();
    assert_eq!(st.clause().len(), 0);
}

#[test]
fn clause_ref_raw_round_trip_is_bit_identical() {
    for code in [0u32, 1, 41, 1 << 20, SPECIAL_CODE, UNDEF_CODE] {
        let c = ClauseRef::from_raw(code);
        assert_eq!(c.to_raw(), code);
        assert_eq!(ClauseRef::from_raw(c.to_raw()), c);
    }
    assert_eq!(ClauseRef::undef().to_raw(), UNDEF_CODE);
    assert_eq!(ClauseRef::special().to_raw(), SPECIAL_CODE);
    assert_ne!(ClauseRef::undef(), ClauseRef::special());
    assert_ne!(ClauseRef::from_raw(7), ClauseRef::undef());
}

#[test]
fn clause_ref_render_distinguishes_sentinels() {
    assert_eq!(ClauseRef::undef().render(), "crUNDEF");
    assert_eq!(ClauseRef::special().render(), "crSPECIAL");
    assert_eq!(ClauseRef::from_raw(0).render(), "cr0");
    assert_eq!(ClauseRef::from_raw(9).render(), "cr9");
    assert_eq!(ClauseRef::from_raw(1234).render(), "cr1234");
    assert_eq!(ClauseRef::from_raw(4294967293).render(), "cr4294967293");
}

#[test]
fn lit_parts_and_negation() {
    let l = lit(6, false);
    assert_eq!(l.var().idx(), 6);
    assert!(!l.sign());
    let n = l.negate();
    assert_eq!(n.var().idx(), 6);
    assert!(n.sign());
    assert_eq!(n.negate(), l);
    assert_ne!(n, l);
}
