use platsat::dimacs::{next_byte, parse, parse_error, parse_int, read_clause, skip_line,
    skip_whitespace, ParseError};
use platsat::lits::{Lit, Var};

fn lit(var: u32, sign: bool) -> Lit {
    Lit::new(Var::from_idx(var), sign)
}

#[test]
fn next_byte_peeks_without_consuming() {
    let s = b"ab";
    assert_eq!(next_byte(s, 0), Some(b'a'));
    assert_eq!(next_byte(s, 1), Some(b'b'));
    assert_eq!(next_byte(s, 2), None);
}

#[test]
fn skip_whitespace_stops_at_first_other_byte() {
    let s = b" \t\r\n x";
    assert_eq!(skip_whitespace(s, 0), 5);
    assert_eq!(skip_whitespace(s, 5), 5);
    let t = b"   ";
    assert_eq!(skip_whitespace(t, 0), 3);
    let u = b"x  ";
    assert_eq!(skip_whitespace(u, 0), 0);
}

#[test]
fn skip_line_passes_the_newline() {
    let s = b"c comment\nrest";
    assert_eq!(skip_line(s, 0), 10);
    assert_eq!(&s[10..], b"rest");
    let t = b"no newline";
    assert_eq!(skip_line(t, 0), t.len());
}

#[test]
fn parse_error_wraps_the_message() {
    let r: Result<i32, ParseError> = parse_error(String::from("boom"));
    match r {
        Err(e) => assert_eq!(e.message, "boom"),
        Ok(_) => panic!("expected an error"),
    }
}

#[test]
fn parse_int_reads_signed_decimals() {
    assert_eq!(parse_int(b"42", 0).unwrap(), (42, 2));
    assert_eq!(parse_int(b"  -7 ", 0).unwrap(), (-7, 4));
    assert_eq!(parse_int(b"+13x", 0).unwrap(), (13, 3));
    assert_eq!(parse_int(b"0", 0).unwrap(), (0, 1));
    assert_eq!(parse_int(b"12 34", 2).unwrap(), (34, 5));
    assert_eq!(parse_int(b"007", 0).unwrap(), (7, 3));
}

#[test]
fn parse_int_rejects_malformed_input() {
    assert!(parse_int(b"", 0).is_err());
    assert!(parse_int(b"   ", 0).is_err());
    assert!(parse_int(b"abc", 0).is_err());
    assert!(parse_int(b"-", 0).is_err());
    assert!(parse_int(b"- 5", 0).is_err());
    assert!(parse_int(b"+x", 0).is_err());
}

#[test]
fn parse_int_bounds() {
    assert_eq!(parse_int(b"2147483647", 0).unwrap(), (2147483647, 10));
    assert_eq!(parse_int(b"-2147483647", 0).unwrap(), (-2147483647, 11));
    assert!(parse_int(b"2147483648", 0).is_err());
    assert!(parse_int(b"99999999999", 0).is_err());
}

#[test]
fn read_clause_collects_until_zero() {
    let mut lits: Vec<Lit> = Vec::new();
    let s = b"1 -2 3 0 rest";
    let end = read_clause(s, 0, &mut lits).unwrap();
    assert_eq!(end, 8);
    assert_eq!(lits, vec![lit(0, false), lit(1, true), lit(2, false)]);
    // The buffer is cleared before reading.
    let t = b" 0";
    let end2 = read_clause(t, 0, &mut lits).unwrap();
    assert_eq!(end2, 2);
    assert!(lits.is_empty());
}

#[test]
fn read_clause_rejects_missing_terminator() {
    let mut lits: Vec<Lit> = Vec::new();
    assert!(read_clause(b"1 -2", 0, &mut lits).is_err());
    assert!(read_clause(b"1 x 0", 0, &mut lits).is_err());
}

#[test]
fn parse_reads_header_comments_and_clauses() {
    let text = b"c a comment\np cnf 3 2\n1 -3 0\n2 3 -1 0\n";
    let out = parse(text).unwrap();
    assert_eq!(out.num_vars, 3);
    assert_eq!(out.num_clauses, 2);
    assert_eq!(out.clauses.len(), 2);
    assert_eq!(out.clauses[0], vec![lit(0, false), lit(2, true)]);
    assert_eq!(out.clauses[1], vec![lit(1, false), lit(2, false), lit(0, true)]);
}

#[test]
fn parse_of_empty_input_is_empty() {
    let out = parse(b"").unwrap();
    assert_eq!(out.num_vars, 0);
    assert_eq!(out.num_clauses, 0);
    assert!(out.clauses.is_empty());
    let ws = parse(b"  \n\t ").unwrap();
    assert!(ws.clauses.is_empty());
}

#[test]
fn parse_rejects_bad_headers() {
    assert!(parse(b"p xyz 1 1\n1 0\n").is_err());
    assert!(parse(b"p cnf x 1\n").is_err());
    assert!(parse(b"p cn").is_err());
}

#[test]
fn parse_header_counts_are_plain_integers() {
    // The scanner takes the next two integers as the counts, wherever the
    // line breaks fall; what follows is read as clauses.
    let out = parse(b"p cnf 1\n1 0").unwrap();
    assert_eq!(out.num_vars, 1);
    assert_eq!(out.num_clauses, 1);
    assert_eq!(out.clauses, vec![Vec::<Lit>::new()]);
}

#[test]
fn parse_clause_without_terminator_fails() {
    assert!(parse(b"p cnf 2 1\n1 -2\n").is_err());
}
