//! A scanner for the DIMACS CNF text format, working over a byte buffer with
//! an explicit cursor: whitespace and comment skipping, signed decimal
//! integers, clause lines, and the full problem.

use crate::lits::{Lit, Var};
use vstd::prelude::*;
use vstd::string::StringExecFns;

verus! {

/// DIMACS whitespace: the ASCII range TAB..CR plus the space.
pub open spec fn is_ws(b: u8) -> bool {
    (9 <= b <= 13) || b == 32
}

/// An ASCII decimal digit.
pub open spec fn is_digit(b: u8) -> bool {
    48 <= b <= 57
}

/// The first position at or after `i` that holds no whitespace (or the end).
pub open spec fn ws_end(s: Seq<u8>, i: int) -> int
    decreases s.len() - i,
        when 0 <= i <= s.len()
{
    if i < s.len() && is_ws(s[i]) {
        ws_end(s, i + 1)
    } else {
        i
    }
}

/// The first position at or after `i` that holds no digit (or the end).
pub open spec fn digits_end(s: Seq<u8>, i: int) -> int
    decreases s.len() - i,
        when 0 <= i <= s.len()
{
    if i < s.len() && is_digit(s[i]) {
        digits_end(s, i + 1)
    } else {
        i
    }
}

/// The position just past the first newline at or after `i` (or the end).
pub open spec fn line_end(s: Seq<u8>, i: int) -> int
    decreases s.len() - i,
        when 0 <= i <= s.len()
{
    if i < s.len() {
        if s[i] == 10 {
            i + 1
        } else {
            line_end(s, i + 1)
        }
    } else {
        i
    }
}

/// The decimal value of the digits `s[from..to]`, most significant first.
pub open spec fn digits_val(s: Seq<u8>, from: int, to: int) -> int
    decreases to - from,
        when from <= to
{
    if from >= to {
        0
    } else {
        digits_val(s, from, to - 1) * 10 + (s[to - 1] - 48)
    }
}

pub proof fn lemma_ws_end_props(s: Seq<u8>, i: int)
    requires
        0 <= i <= s.len(),
    ensures
        i <= ws_end(s, i) <= s.len(),
        forall|j: int| i <= j < ws_end(s, i) ==> is_ws(s[j]),
        ws_end(s, i) < s.len() ==> !is_ws(s[ws_end(s, i)]),
    decreases s.len() - i,
{
    if i < s.len() && is_ws(s[i]) {
        lemma_ws_end_props(s, i + 1);
    }
}

pub proof fn lemma_digits_end_props(s: Seq<u8>, i: int)
    requires
        0 <= i <= s.len(),
    ensures
        i <= digits_end(s, i) <= s.len(),
        forall|j: int| i <= j < digits_end(s, i) ==> is_digit(s[j]),
        digits_end(s, i) < s.len() ==> !is_digit(s[digits_end(s, i)]),
        i < s.len() && is_digit(s[i]) ==> digits_end(s, i) > i,
    decreases s.len() - i,
{
    if i < s.len() && is_digit(s[i]) {
        lemma_digits_end_props(s, i + 1);
    }
}

pub proof fn lemma_line_end_props(s: Seq<u8>, i: int)
    requires
        0 <= i <= s.len(),
    ensures
        i <= line_end(s, i) <= s.len(),
        i < s.len() ==> line_end(s, i) > i,
    decreases s.len() - i,
{
    if i < s.len() && s[i] != 10 {
        lemma_line_end_props(s, i + 1);
    }
}

pub proof fn lemma_digits_val_nonneg(s: Seq<u8>, from: int, to: int)
    requires
        from <= to,
        forall|j: int| from <= j < to ==> is_digit(s[j]),
    ensures
        digits_val(s, from, to) >= 0,
    decreases to - from,
{
    if from < to {
        lemma_digits_val_nonneg(s, from, to - 1);
    }
}

/// Reading further digits never shrinks the value.
pub proof fn lemma_digits_val_mono(s: Seq<u8>, from: int, mid: int, to: int)
    requires
        from <= mid <= to,
        forall|j: int| from <= j < to ==> is_digit(s[j]),
    ensures
        digits_val(s, from, to) >= digits_val(s, from, mid),
    decreases to - mid,
{
    if mid < to {
        lemma_digits_val_mono(s, from, mid, to - 1);
        lemma_digits_val_nonneg(s, from, to - 1);
    }
}

/// The error the scanner reports for malformed input.
#[derive(Debug)]
pub struct ParseError {
    pub message: String,
}

/// Wraps a message as the scanner's error result.
pub fn parse_error<T>(message: String) -> (r: Result<T, ParseError>)
    ensures
        r matches Err(e) && e.message@ == message@,
{
    Err(ParseError { message })
}

/// The byte under the cursor, or `None` at the end of the buffer.
pub fn next_byte(input: &[u8], pos: usize) -> (r: Option<u8>)
    ensures
        r == if (pos as int) < input@.len() {
            Some(input@[pos as int])
        } else {
            None::<u8>
        },
{
    if pos < input.len() {
        Some(input[pos])
    } else {
        None
    }
}

/// Advances the cursor past any whitespace.
pub fn skip_whitespace(input: &[u8], pos: usize) -> (r: usize)
    requires
        pos <= input@.len(),
    ensures
        r as int == ws_end(input@, pos as int),
        pos <= r <= input@.len(),
{
    proof {
        lemma_ws_end_props(input@, pos as int);
    }
    let mut i: usize = pos;
    loop
        invariant
            pos <= i <= input@.len(),
            ws_end(input@, pos as int) == ws_end(input@, i as int),
        decreases input@.len() - i,
    {
        if i < input.len() {
            let b = input[i];
            if (9 <= b && b <= 13) || b == 32 {
                i = i + 1;
            } else {
                return i;
            }
        } else {
            return i;
        }
    }
}

/// Advances the cursor past the current line: to just after the next
/// newline, or to the end of the buffer if none follows.
pub fn skip_line(input: &[u8], pos: usize) -> (r: usize)
    requires
        pos <= input@.len(),
    ensures
        r as int == line_end(input@, pos as int),
        pos <= r <= input@.len(),
{
    proof {
        lemma_line_end_props(input@, pos as int);
    }
    let mut i: usize = pos;
    loop
        invariant
            pos <= i <= input@.len(),
            line_end(input@, pos as int) == line_end(input@, i as int),
        decreases input@.len() - i,
    {
        if i < input.len() {
            let ch = input[i];
            i = i + 1;
            if ch == 10 {
                return i;
            }
        } else {
            return i;
        }
    }
}

/// Where the digits of the integer at `pos` begin: after the whitespace and
/// an optional sign.
pub open spec fn int_digits_start(s: Seq<u8>, pos: int) -> int {
    let w = ws_end(s, pos);
    if w < s.len() && (s[w] == 43 || s[w] == 45) {
        w + 1
    } else {
        w
    }
}

/// Whether the integer at `pos` carries a minus sign.
pub open spec fn int_is_neg(s: Seq<u8>, pos: int) -> bool {
    let w = ws_end(s, pos);
    w < s.len() && s[w] == 45
}

/// The magnitude of the integer at `pos`.
pub open spec fn int_magnitude(s: Seq<u8>, pos: int) -> int {
    let d0 = int_digits_start(s, pos);
    digits_val(s, d0, digits_end(s, d0))
}

/// Whether an integer can be read at `pos`: after whitespace and an optional
/// sign a digit follows, and the value fits the result type.
pub open spec fn parse_int_ok(s: Seq<u8>, pos: int) -> bool {
    let d0 = int_digits_start(s, pos);
    &&& d0 < s.len()
    &&& is_digit(s[d0])
    &&& int_magnitude(s, pos) <= i32::MAX as int
}

/// The value of the integer at `pos`.
pub open spec fn int_value(s: Seq<u8>, pos: int) -> int {
    if int_is_neg(s, pos) {
        -int_magnitude(s, pos)
    } else {
        int_magnitude(s, pos)
    }
}

/// The cursor position just past the integer at `pos`.
pub open spec fn int_end(s: Seq<u8>, pos: int) -> int {
    digits_end(s, int_digits_start(s, pos))
}

/// Reads a signed decimal integer: skips whitespace, takes an optional
/// `+`/`-`, and accumulates digits. Errs when no digit follows (including at
/// end of input) or the magnitude overflows the result type.
pub fn parse_int(input: &[u8], pos: usize) -> (r: Result<(i32, usize), ParseError>)
    requires
        pos <= input@.len(),
    ensures
        parse_int_ok(input@, pos as int) ==> (r matches Ok(p) && p.0 as int == int_value(
            input@,
            pos as int,
        ) && p.1 as int == int_end(input@, pos as int) && p.1 <= input@.len()),
        !parse_int_ok(input@, pos as int) ==> r is Err,
        r matches Ok(p) ==> pos < p.1 <= input@.len(),
{
    let ghost s = input@;
    let mut i = skip_whitespace(input, pos);
    proof {
        lemma_ws_end_props(s, pos as int);
    }
    let mut neg = false;
    if i < input.len() && (input[i] == 43 || input[i] == 45) {
        neg = input[i] == 45;
        i = i + 1;
    }
    let ghost d0 = i as int;
    proof {
        assert(d0 == int_digits_start(s, pos as int));
        lemma_digits_end_props(s, d0);
    }
    if i >= input.len() {
        return parse_error(String::from_str("PARSE ERROR! Unexpected EOF"));
    }
    if !(48 <= input[i] && input[i] <= 57) {
        return parse_error(String::from_str("PARSE ERROR! Unexpected char"));
    }
    let ghost de = digits_end(s, d0);
    let mut val: i64 = 0;
    while i < input.len() && 48 <= input[i] && input[i] <= 57
        invariant
            0 <= d0 <= i <= s.len(),
            s == input@,
            pos <= s.len(),
            d0 == int_digits_start(s, pos as int),
            de == digits_end(s, d0),
            d0 < s.len() && is_digit(s[d0]),
            digits_end(s, i as int) == de,
            forall|j: int| d0 <= j < i ==> is_digit(s[j]),
            val == digits_val(s, d0, i as int),
            0 <= val <= i32::MAX,
        decreases s.len() - i,
    {
        proof {
            lemma_digits_end_props(s, i as int);
        }
        let d = input[i];
        val = val * 10 + ((d - 48) as i64);
        i = i + 1;
        if val > (i32::MAX as i64) {
            proof {
                assert(digits_end(s, (i - 1) as int) == de);
                assert(is_digit(s[i - 1]));
                assert(digits_end(s, i as int) == de);
                lemma_digits_end_props(s, i as int);
                assert(forall|j: int| d0 <= j < de ==> is_digit(s[j]));
                lemma_digits_val_mono(s, d0, i as int, de);
                assert(int_magnitude(s, pos as int) == digits_val(s, d0, de));
                assert(!parse_int_ok(s, pos as int));
            }
            return parse_error(String::from_str("PARSE ERROR! Number too large"));
        }
    }
    proof {
        assert(i as int == de);
        assert(parse_int_ok(s, pos as int));
    }
    let v = val as i32;
    if neg {
        Ok((-v, i))
    } else {
        Ok((v, i))
    }
}

/// Bounds on a readable integer: its magnitude is nonnegative and its end
/// lies strictly past the start.
pub proof fn lemma_int_value_bounds(s: Seq<u8>, pos: int)
    requires
        0 <= pos <= s.len(),
        parse_int_ok(s, pos),
    ensures
        0 <= int_magnitude(s, pos) <= i32::MAX as int,
        pos < int_end(s, pos) <= s.len(),
        int_value(s, pos) == 0 <==> int_magnitude(s, pos) == 0,
{
    let d0 = int_digits_start(s, pos);
    lemma_ws_end_props(s, pos);
    lemma_digits_end_props(s, d0);
    lemma_digits_val_nonneg(s, d0, digits_end(s, d0));
}

/// The literal a nonzero DIMACS integer denotes: variable `|v| - 1`,
/// negative when `v` is negative.
pub open spec fn lit_of_int(v: int) -> Lit {
    Lit::spec_from_parts(((if v < 0 {
        -v
    } else {
        v
    }) - 1) as u32, v < 0)
}

/// One step of reading a clause: integers accumulate onto `acc` until a `0`
/// terminator; `fuel` bounds the recursion and is ample for any buffer.
pub open spec fn clause_step(s: Seq<u8>, pos: int, acc: Seq<Lit>, fuel: nat) -> Option<
    (Seq<Lit>, int),
>
    decreases fuel,
{
    if fuel == 0 {
        None
    } else if !parse_int_ok(s, pos) {
        None
    } else {
        let v = int_value(s, pos);
        let e = int_end(s, pos);
        if v == 0 {
            Some((acc, e))
        } else {
            clause_step(s, e, acc.push(lit_of_int(v)), (fuel - 1) as nat)
        }
    }
}

/// The clause read at `pos`: its literals and the position just past its
/// `0` terminator, or `None` on malformed input.
pub open spec fn clause_spec(s: Seq<u8>, pos: int) -> Option<(Seq<Lit>, int)> {
    clause_step(s, pos, Seq::empty(), (s.len() - pos + 1) as nat)
}

/// Reads one clause: literals until a `0` terminator, each integer `v`
/// becoming the literal over variable `|v| - 1`, negative when `v < 0`.
/// `lits` is cleared first and left holding the clause.
pub fn read_clause(input: &[u8], pos: usize, lits: &mut Vec<Lit>) -> (r: Result<
    usize,
    ParseError,
>)
    requires
        pos <= input@.len(),
    ensures
        r matches Ok(e) ==> clause_spec(input@, pos as int) == Some((final(lits)@, e as int))
            && pos < e <= input@.len(),
        r is Err ==> clause_spec(input@, pos as int) is None,
{
    let ghost s = input@;
    lits.clear();
    let mut cur = pos;
    let ghost fuel0 = (s.len() - pos + 1) as nat;
    let ghost mut fuel_rem: nat = fuel0;
    loop
        invariant
            s == input@,
            pos <= cur <= s.len(),
            fuel_rem >= s.len() - cur + 1,
            fuel0 == (s.len() - pos + 1) as nat,
            clause_step(s, pos as int, Seq::empty(), fuel0) == clause_step(
                s,
                cur as int,
                lits@,
                fuel_rem,
            ),
        decreases s.len() - cur,
    {
        let ghost prev = lits@;
        let ghost fuel_prev = fuel_rem;
        match parse_int(input, cur) {
            Err(e) => {
                proof {
                    assert(clause_step(s, cur as int, lits@, fuel_rem) is None);
                }
                return Err(e);
            },
            Ok((v, e)) => {
                if v == 0 {
                    proof {
                        assert(clause_step(s, cur as int, lits@, fuel_rem) == Some(
                            (lits@, e as int),
                        ));
                    }
                    return Ok(e);
                }
                proof {
                    lemma_int_value_bounds(s, cur as int);
                }
                let mag = if v < 0 {
                    -v
                } else {
                    v
                };
                let var_idx = (mag - 1) as u32;
                let l = Lit::new(Var::from_idx(var_idx), v < 0);
                lits.push(l);
                proof {
                    assert(l == lit_of_int(int_value(s, cur as int)));
                    fuel_rem = (fuel_rem - 1) as nat;
                    assert(clause_step(s, cur as int, prev, fuel_prev) == clause_step(
                        s,
                        e as int,
                        lits@,
                        fuel_rem,
                    ));
                }
                cur = e;
            },
        }
    }
}

/// The result of reading a whole DIMACS problem: the last header's counts
/// (zero if no header was seen) and the clauses in order.
pub struct ParseOut {
    pub num_vars: i32,
    pub num_clauses: i32,
    pub clauses: Vec<Vec<Lit>>,
}

/// One step of reading the problem: at each turn, whitespace is skipped,
/// then the end of input stops, a `p cnf` header resets the counts, a `c`
/// comment line is skipped, and anything else is read as a clause.
pub open spec fn parse_step(
    s: Seq<u8>,
    pos: int,
    nv: int,
    nc: int,
    cls: Seq<Seq<Lit>>,
    fuel: nat,
) -> Option<(int, int, Seq<Seq<Lit>>)>
    decreases fuel,
{
    if fuel == 0 {
        None
    } else {
        let w = ws_end(s, pos);
        if w >= s.len() {
            Some((nv, nc, cls))
        } else if s[w] == 112 {
            if w + 5 <= s.len() && s[w + 1] == 32 && s[w + 2] == 99 && s[w + 3] == 110 && s[w + 4]
                == 102 {
                if parse_int_ok(s, w + 5) {
                    let e1 = int_end(s, w + 5);
                    if parse_int_ok(s, e1) {
                        parse_step(
                            s,
                            int_end(s, e1),
                            int_value(s, w + 5),
                            int_value(s, e1),
                            cls,
                            (fuel - 1) as nat,
                        )
                    } else {
                        None
                    }
                } else {
                    None
                }
            } else {
                None
            }
        } else if s[w] == 99 {
            parse_step(s, line_end(s, w), nv, nc, cls, (fuel - 1) as nat)
        } else {
            match clause_spec(s, w) {
                Some(cl) => parse_step(s, cl.1, nv, nc, cls.push(cl.0), (fuel - 1) as nat),
                None => None,
            }
        }
    }
}

/// The whole problem a buffer holds, or `None` on malformed input.
pub open spec fn parse_spec(s: Seq<u8>) -> Option<(int, int, Seq<Seq<Lit>>)> {
    parse_step(s, 0, 0, 0, Seq::empty(), (s.len() + 1) as nat)
}

/// Reads a whole DIMACS problem from a byte buffer: header counts and the
/// clause list, or an error on malformed input.
pub fn parse(input: &[u8]) -> (r: Result<ParseOut, ParseError>)
    ensures
        r matches Ok(out) ==> parse_spec(input@) == Some(
            (
                out.num_vars as int,
                out.num_clauses as int,
                out.clauses@.map_values(|c: Vec<Lit>| c@),
            ),
        ),
        r is Err ==> parse_spec(input@) is None,
{
    let ghost s = input@;
    let mut num_vars: i32 = 0;
    let mut num_clauses: i32 = 0;
    let mut clauses: Vec<Vec<Lit>> = Vec::new();
    let mut cur: usize = 0;
    let ghost fuel0 = (s.len() + 1) as nat;
    let ghost mut fuel_rem: nat = fuel0;
    proof {
        assert(clauses@.map_values(|c: Vec<Lit>| c@) =~= Seq::<Seq<Lit>>::empty());
    }
    loop
        invariant
            s == input@,
            0 <= cur <= s.len(),
            fuel_rem >= s.len() - cur + 1,
            fuel0 == (s.len() + 1) as nat,
            parse_step(s, 0, 0, 0, Seq::<Seq<Lit>>::empty(), fuel0) == parse_step(
                s,
                cur as int,
                num_vars as int,
                num_clauses as int,
                clauses@.map_values(|c: Vec<Lit>| c@),
                fuel_rem,
            ),
        decreases s.len() - cur,
    {
        let ghost prev_cls = clauses@.map_values(|c: Vec<Lit>| c@);
        let ghost fuel_prev = fuel_rem;
        let w = skip_whitespace(input, cur);
        if w >= input.len() {
            return Ok(ParseOut { num_vars, num_clauses, clauses });
        }
        let ch = input[w];
        if ch == 112 {
            if input.len() - w < 5 {
                return parse_error(String::from_str("PARSE ERROR! Unexpected char: p"));
            }
            if !(input[w + 1] == 32 && input[w + 2] == 99 && input[w + 3] == 110 && input[w + 4]
                == 102) {
                return parse_error(String::from_str("PARSE ERROR! Unexpected char: p"));
            }
            match parse_int(input, w + 5) {
                Err(e) => {
                    return Err(e);
                },
                Ok((v1, e1)) => {
                    match parse_int(input, e1) {
                        Err(e) => {
                            return Err(e);
                        },
                        Ok((v2, e2)) => {
                            num_vars = v1;
                            num_clauses = v2;
                            proof {
                                fuel_rem = (fuel_rem - 1) as nat;
                            }
                            cur = e2;
                        },
                    }
                },
            }
        } else if ch == 99 {
            let e = skip_line(input, w);
            proof {
                lemma_line_end_props(s, w as int);
                fuel_rem = (fuel_rem - 1) as nat;
                assert(parse_step(s, cur as int, num_vars as int, num_clauses as int, prev_cls, fuel_prev)
                    == parse_step(s, e as int, num_vars as int, num_clauses as int, prev_cls, fuel_rem));
            }
            cur = e;
        } else {
            let mut cl: Vec<Lit> = Vec::new();
            match read_clause(input, w, &mut cl) {
                Err(e) => {
                    return Err(e);
                },
                Ok(e) => {
                    let ghost clv = cl@;
                    clauses.push(cl);
                    proof {
                        fuel_rem = (fuel_rem - 1) as nat;
                        assert(clauses@.map_values(|c: Vec<Lit>| c@) =~= prev_cls.push(clv));
                        assert(parse_step(
                            s,
                            cur as int,
                            num_vars as int,
                            num_clauses as int,
                            prev_cls,
                            fuel_prev,
                        ) == parse_step(
                            s,
                            e as int,
                            num_vars as int,
                            num_clauses as int,
                            prev_cls.push(clv),
                            fuel_rem,
                        ));
                    }
                    cur = e;
                },
            }
        }
    }
}

} // verus!
