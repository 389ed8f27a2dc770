//! Small-integer-indexed containers and the theory-extension protocol that
//! back the innermost bookkeeping of a clause-learning boolean solver.

pub mod dimacs;
pub mod intmap;
pub mod lits;
pub mod theory;
