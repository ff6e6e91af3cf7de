// The interaction engine on concrete programs, including both bracket scans,
// the halting edge cases, and the step bound.
use bff_sim::vm::interact;

fn run(a: Vec<u8>, b: Vec<u8>, limit: usize) -> (Vec<u8>, Vec<u8>) {
    interact(&a, &b, limit)
}

#[test]
fn all_zero_genomes_come_back_unchanged() {
    // zero bytes are no-ops, so nothing on the tape changes
    let (oa, ob) = run(vec![0, 0], vec![0, 0], 2048);
    assert_eq!(oa, vec![0, 0]);
    assert_eq!(ob, vec![0, 0]);
}

#[test]
fn unrecognized_bytes_are_noops() {
    let (oa, ob) = run(vec![1, 2, 3, 200], vec![9, 9, 9, 9], 2048);
    assert_eq!(oa, vec![1, 2, 3, 200]);
    assert_eq!(ob, vec![9, 9, 9, 9]);
}

#[test]
fn outputs_keep_the_genome_length() {
    let (oa, ob) = run(vec![91, 93, 43, 45, 60, 62, 44, 46], vec![255; 8], 2048);
    assert_eq!(oa.len(), 8);
    assert_eq!(ob.len(), 8);
}

#[test]
fn step_limit_zero_changes_nothing() {
    let (oa, ob) = run(vec![43, 45], vec![46, 44], 0);
    assert_eq!(oa, vec![43, 45]);
    assert_eq!(ob, vec![46, 44]);
}

#[test]
fn increment_writes_under_head0() {
    // '>' '>' move head0 to the '+' cell, which then increments itself
    let (oa, ob) = run(vec![62, 62, 43, 0], vec![7, 7, 7, 7], 2048);
    assert_eq!(oa, vec![62, 62, 44, 0]);
    assert_eq!(ob, vec![7, 7, 7, 7]);
}

#[test]
fn decrement_writes_under_head0() {
    // '-' decrements the cell under head0, which is the '-' itself
    let (oa, ob) = run(vec![45, 0], vec![0, 0], 2048);
    assert_eq!(oa, vec![44, 0]);
    assert_eq!(ob, vec![0, 0]);
}

#[test]
fn export_copies_head0_to_head1() {
    // '.' copies the byte under head0 (the '.') onto head1, at the b half
    let (oa, ob) = run(vec![46, 0, 0, 0], vec![5, 6, 7, 8], 2048);
    assert_eq!(oa, vec![46, 0, 0, 0]);
    assert_eq!(ob, vec![46, 6, 7, 8]);
}

#[test]
fn import_copies_head1_to_head0() {
    // ',' copies the byte under head1 (start of the b half) onto head0
    let (oa, ob) = run(vec![44, 0], vec![7, 8], 2048);
    assert_eq!(oa, vec![7, 0]);
    assert_eq!(ob, vec![7, 8]);
}

#[test]
fn head1_advance_then_export() {
    // '}' advances head1 to the b half's second cell, '.' writes there
    let (oa, ob) = run(vec![125, 46, 0, 0], vec![9, 9, 9, 9], 2048);
    assert_eq!(oa, vec![125, 46, 0, 0]);
    assert_eq!(ob, vec![9, 125, 9, 9]);
}

#[test]
fn open_skips_forward_over_its_body_when_zero() {
    // '<' wraps head0 to the last cell (zero), so '[' jumps past the
    // matching ']' and the '+' in the body never runs
    let (oa, ob) = run(vec![60, 91, 43, 93], vec![0, 0, 0, 0], 2048);
    assert_eq!(oa, vec![60, 91, 43, 93]);
    assert_eq!(ob, vec![0, 0, 0, 0]);
}

#[test]
fn close_jumps_backward_while_nonzero() {
    // head0 sits on a nonzero cell, so the '[' body runs and ']' jumps back
    // to just after the '['; the step bound of 6 allows two '+' executions
    let (oa, ob) = run(vec![60, 91, 43, 93], vec![0, 0, 0, 1], 6);
    assert_eq!(oa, vec![60, 91, 43, 93]);
    assert_eq!(ob, vec![0, 0, 0, 3]);
}

#[test]
fn nested_brackets_match_the_outer_close() {
    // '<' puts head0 on a zero cell, so the outer '[' must skip past its own
    // matching ']' — the second one — and execution resumes at the '+',
    // which increments the cell under head0 exactly once
    let (oa, ob) = run(vec![60, 91, 91, 93], vec![93, 43, 0, 0], 2048);
    assert_eq!(oa, vec![60, 91, 91, 93]);
    assert_eq!(ob, vec![93, 43, 0, 1]);
}

#[test]
fn unmatched_open_halts_silently() {
    // '[' with a zero under head0 and no ']' anywhere halts the run
    let (oa, ob) = run(vec![60, 91, 0, 0], vec![0, 0, 0, 0], 2048);
    assert_eq!(oa, vec![60, 91, 0, 0]);
    assert_eq!(ob, vec![0, 0, 0, 0]);
}

#[test]
fn unmatched_close_halts_silently() {
    // ']' at a nonzero head0 with no '[' behind it halts the run; the '+'
    // first bumps the cell under head0 (the '>' at index 0) to 63
    let (oa, ob) = run(vec![62, 43, 93, 0], vec![0, 0, 0, 0], 2048);
    assert_eq!(oa, vec![62, 44, 93, 0]);
    assert_eq!(ob, vec![0, 0, 0, 0]);
}
