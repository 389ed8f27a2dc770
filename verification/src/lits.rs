//! Variables and literals: the opaque, index-convertible keys the solver's
//! per-entity bookkeeping is positioned by.

use crate::intmap::AsIndex;
use vstd::prelude::*;

verus! {

/// The largest variable index: one bit of a literal's code encodes its sign,
/// so a variable index must fit in the remaining bits of a `u32`.
pub const MAX_VAR_IDX: u32 = 0x7FFF_FFFE;

/// A boolean variable, identified by a dense index.
#[derive(Clone, Copy, PartialEq, Eq, Structural, Hash, Debug)]
pub struct Var {
    idx: u32,
}

impl Var {
    pub closed spec fn spec_idx(self) -> u32 {
        self.idx
    }

    pub fn from_idx(idx: u32) -> (r: Var)
        ensures
            r.spec_idx() == idx,
    {
        Var { idx }
    }

    pub fn idx(self) -> (r: u32)
        ensures
            r == self.spec_idx(),
    {
        self.idx
    }
}

impl AsIndex for Var {
    open spec fn key_index(self) -> int {
        self.spec_idx() as int
    }

    open spec fn index_ok(i: int) -> bool {
        0 <= i <= u32::MAX as int
    }

    proof fn lemma_key_index_ok(a: Self) {
    }

    proof fn lemma_index_ok_down(i: int, j: int) {
    }

    proof fn lemma_key_index_injective(a: Self, b: Self) {
    }

    fn as_index(self) -> (r: usize) {
        self.idx as usize
    }

    fn from_index(i: usize) -> (r: Self) {
        Var { idx: i as u32 }
    }
}

/// A literal: a variable together with a sign. Its code packs the variable
/// index and the sign into one integer, sign in the lowest bit, so literals
/// index densely as well.
#[derive(Clone, Copy, PartialEq, Eq, Structural, Hash, Debug)]
pub struct Lit {
    code: u32,
}

impl Lit {
    pub closed spec fn spec_code(self) -> u32 {
        self.code
    }

    /// The variable this literal speaks of.
    pub closed spec fn spec_var(self) -> Var {
        Var { idx: self.code / 2 }
    }

    /// True for a negative literal.
    pub open spec fn spec_sign(self) -> bool {
        self.spec_code() % 2 == 1
    }

    /// The same variable with the opposite sign.
    pub closed spec fn spec_negate(self) -> Lit {
        if self.code % 2 == 0 {
            Lit { code: (self.code + 1) as u32 }
        } else {
            Lit { code: (self.code - 1) as u32 }
        }
    }

    /// The literal with the given variable index and sign, at spec level.
    pub closed spec fn spec_from_parts(idx: u32, sign: bool) -> Lit {
        Lit {
            code: (idx * 2 + if sign {
                1int
            } else {
                0int
            }) as u32,
        }
    }

    /// Builds the literal over `var`, negative when `sign` is true.
    pub fn new(var: Var, sign: bool) -> (r: Lit)
        requires
            var.spec_idx() <= MAX_VAR_IDX,
        ensures
            r == Lit::spec_from_parts(var.spec_idx(), sign),
            r.spec_var() == var,
            r.spec_sign() == sign,
            r.spec_code() as int == var.spec_idx() as int * 2 + if sign {
                1int
            } else {
                0int
            },
    {
        Lit { code: var.idx() * 2 + if sign { 1 } else { 0 } }
    }

    pub fn var(self) -> (r: Var)
        ensures
            r == self.spec_var(),
    {
        Var::from_idx(self.code / 2)
    }

    pub fn sign(self) -> (r: bool)
        ensures
            r == self.spec_sign(),
    {
        self.code % 2 == 1
    }

    /// Flips the sign, keeping the variable.
    pub fn negate(self) -> (r: Lit)
        ensures
            r == self.spec_negate(),
            r.spec_var() == self.spec_var(),
            r.spec_sign() == !self.spec_sign(),
            r.spec_negate() == self,
    {
        if self.code % 2 == 0 {
            Lit { code: self.code + 1 }
        } else {
            Lit { code: self.code - 1 }
        }
    }
}

/// Law: negation is an involution — negating a literal twice gives the
/// literal back — and never fixes a literal.
pub proof fn lemma_negate_involutive(l: Lit)
    ensures
        l.spec_negate().spec_negate() == l,
        l.spec_negate() != l,
{
}

impl AsIndex for Lit {
    open spec fn key_index(self) -> int {
        self.spec_code() as int
    }

    open spec fn index_ok(i: int) -> bool {
        0 <= i <= u32::MAX as int
    }

    proof fn lemma_key_index_ok(a: Self) {
    }

    proof fn lemma_index_ok_down(i: int, j: int) {
    }

    proof fn lemma_key_index_injective(a: Self, b: Self) {
    }

    fn as_index(self) -> (r: usize) {
        self.code as usize
    }

    fn from_index(i: usize) -> (r: Self) {
        Lit { code: i as u32 }
    }
}

} // verus!
