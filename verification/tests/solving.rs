use timing_oracle::candidate::{build_payload, charset, NEWLINE, TERMINATOR};
use timing_oracle::ranker::select_best;
use timing_oracle::solver::Solver;

#[test]
fn charset_holds_the_alphabet() {
    let cs = charset();
    assert_eq!(cs.len(), 40);
    assert!(!cs.is_empty());
    assert_eq!(cs[0], b'a');
    assert_eq!(cs[25], b'z');
    assert_eq!(cs[26], b'0');
    assert_eq!(cs[35], b'9');
    assert_eq!(&cs[36..], &[b'_', b'-', b'{', b'}']);
    assert_eq!(*cs.last().unwrap(), TERMINATOR);
}

#[test]
fn payload_is_plaintext_candidate_newline() {
    let plain = vec![b'f', b'l'];
    let p = build_payload(&plain, b'4');
    assert_eq!(p, vec![b'f', b'l', b'4', NEWLINE]);
}

#[test]
fn payload_from_empty_plaintext() {
    let p = build_payload(&Vec::new(), b'a');
    assert_eq!(p, vec![b'a', NEWLINE]);
}

#[test]
fn advance_grows_buffer_by_one() {
    let mut solver = Solver::new(vec![b'f', b'l']);
    solver.advance(b'4');
    assert_eq!(solver.plaintext().as_slice(), b"fl4");
    solver.advance(b'g');
    assert_eq!(solver.plaintext().as_slice(), b"fl4g");
}

#[test]
fn done_exactly_on_trailing_terminator() {
    let open = Solver::new(vec![b'a', b'{']);
    assert!(!open.is_done());
    let closed = Solver::new(vec![b'a', TERMINATOR]);
    assert!(closed.is_done());
    let empty = Solver::new(Vec::new());
    assert!(!empty.is_done());
}

#[test]
fn mock_oracle_recovers_secret_from_empty_prefix() {
    // Mock oracle: the correct next byte of the secret gets a strictly
    // larger score than every other candidate.
    let secret = b"fl4g_c0d3}".to_vec();
    let cs = charset();
    let mut solver = Solver::new(Vec::new());
    let mut rounds: usize = 0;
    while !solver.is_done() && rounds <= secret.len() {
        let want = secret[solver.plaintext().len()];
        let results: Vec<(u8, u128)> = cs
            .iter()
            .map(|&c| (c, if c == want { 10_000u128 } else { 10u128 }))
            .collect();
        let k = select_best(&results);
        solver.advance(results[k].0);
        rounds += 1;
    }
    assert_eq!(solver.plaintext(), &secret);
    assert_eq!(rounds, secret.len());
    assert_eq!(*solver.plaintext().last().unwrap(), TERMINATOR);
}

#[test]
fn mock_oracle_continues_from_known_prefix() {
    let secret = b"fl4g_ok}".to_vec();
    let prefix = b"fl4g_".to_vec();
    let cs = charset();
    let mut solver = Solver::new(prefix.clone());
    let mut rounds: usize = 0;
    while !solver.is_done() && rounds <= secret.len() {
        let want = secret[solver.plaintext().len()];
        let results: Vec<(u8, u128)> = cs
            .iter()
            .map(|&c| (c, if c == want { 500u128 } else { 1u128 }))
            .collect();
        let k = select_best(&results);
        solver.advance(results[k].0);
        rounds += 1;
    }
    assert_eq!(solver.plaintext(), &secret);
    assert_eq!(rounds, secret.len() - prefix.len());
}
