//! The interaction engine: a bounded-step interpreter over a tape made of two
//! genomes, with two independent data cursors (head0, head1) and an
//! instruction pointer. Every byte sequence is a legal program: unrecognized
//! bytes are no-ops, and every anomaly (unmatched bracket, instruction pointer
//! out of range, step exhaustion) silently halts the run.
use vstd::prelude::*;

verus! {

/// Advance head0 by one (circular).
pub const OP_FWD0: u8 = 62;

/// Retreat head0 by one (circular).
pub const OP_BACK0: u8 = 60;

/// Advance head1 by one (circular).
pub const OP_FWD1: u8 = 125;

/// Retreat head1 by one (circular).
pub const OP_BACK1: u8 = 123;

/// Increment the byte at head0 (wrapping).
pub const OP_INC: u8 = 43;

/// Decrement the byte at head0 (wrapping).
pub const OP_DEC: u8 = 45;

/// Copy the byte at head0 to head1.
pub const OP_EXPORT: u8 = 46;

/// Copy the byte at head1 to head0.
pub const OP_IMPORT: u8 = 44;

/// If the byte at head0 is zero, jump forward past the matching close marker.
pub const OP_OPEN: u8 = 91;

/// If the byte at head0 is nonzero, jump backward past the matching open marker.
pub const OP_CLOSE: u8 = 93;

/// The interpreter's full state: the working tape, the instruction pointer,
/// the two data cursors, and whether the run has halted.
pub ghost struct VmState {
    pub tape: Seq<u8>,
    pub ip: int,
    pub head0: int,
    pub head1: int,
    pub halted: bool,
}

/// The same state, marked halted.
pub open spec fn halt(s: VmState) -> VmState {
    VmState { halted: true, ..s }
}

/// The state an interaction starts from: instruction pointer and head0 at the
/// start of the tape, head1 at its midpoint.
pub open spec fn init_state(tape: Seq<u8>) -> VmState {
    VmState { tape, ip: 0, head0: 0, head1: tape.len() as int / 2, halted: false }
}

/// Forward scan for the close marker matching an open marker: from position
/// `pos` with `depth` opens outstanding, the position just past the matching
/// close, or `None` if the tape ends first.
pub open spec fn find_close(tape: Seq<u8>, pos: int, depth: int) -> Option<int>
    decreases tape.len() - pos,
{
    if pos < 0 || pos >= tape.len() {
        None
    } else if tape[pos] == OP_OPEN {
        find_close(tape, pos + 1, depth + 1)
    } else if tape[pos] == OP_CLOSE {
        if depth == 1 {
            Some(pos + 1)
        } else {
            find_close(tape, pos + 1, depth - 1)
        }
    } else {
        find_close(tape, pos + 1, depth)
    }
}

/// Backward scan for the open marker matching a close marker: from position
/// `pos` with `depth` closes outstanding, the position just past the matching
/// open, or `None` if the start of the tape is reached first.
pub open spec fn find_open(tape: Seq<u8>, pos: int, depth: int) -> Option<int>
    decreases pos,
{
    if pos < 0 || pos >= tape.len() {
        None
    } else if tape[pos] == OP_OPEN && depth == 1 {
        Some(pos + 1)
    } else if pos == 0 {
        None
    } else if tape[pos] == OP_OPEN {
        find_open(tape, pos - 1, depth - 1)
    } else if tape[pos] == OP_CLOSE {
        find_open(tape, pos - 1, depth + 1)
    } else {
        find_open(tape, pos - 1, depth)
    }
}

/// One fetch/execute step. A halted state is a fixed point; an instruction
/// pointer outside the tape halts; otherwise the byte under the instruction
/// pointer executes, unrecognized bytes acting as no-ops.
pub open spec fn vm_step(s: VmState) -> VmState {
    let len = s.tape.len() as int;
    if s.halted {
        s
    } else if s.ip < 0 || s.ip >= len {
        halt(s)
    } else {
        let inst = s.tape[s.ip];
        if inst == OP_FWD0 {
            VmState { head0: (s.head0 + 1) % len, ip: s.ip + 1, ..s }
        } else if inst == OP_BACK0 {
            VmState {
                head0: if s.head0 == 0 {
                    len - 1
                } else {
                    s.head0 - 1
                },
                ip: s.ip + 1,
                ..s
            }
        } else if inst == OP_FWD1 {
            VmState { head1: (s.head1 + 1) % len, ip: s.ip + 1, ..s }
        } else if inst == OP_BACK1 {
            VmState {
                head1: if s.head1 == 0 {
                    len - 1
                } else {
                    s.head1 - 1
                },
                ip: s.ip + 1,
                ..s
            }
        } else if inst == OP_INC {
            VmState { tape: s.tape.update(s.head0, inc_byte(s.tape[s.head0])), ip: s.ip + 1, ..s }
        } else if inst == OP_DEC {
            VmState { tape: s.tape.update(s.head0, dec_byte(s.tape[s.head0])), ip: s.ip + 1, ..s }
        } else if inst == OP_EXPORT {
            VmState { tape: s.tape.update(s.head1, s.tape[s.head0]), ip: s.ip + 1, ..s }
        } else if inst == OP_IMPORT {
            VmState { tape: s.tape.update(s.head0, s.tape[s.head1]), ip: s.ip + 1, ..s }
        } else if inst == OP_OPEN {
            if s.tape[s.head0] == 0 {
                match find_close(s.tape, s.ip + 1, 1) {
                    Some(nip) => VmState { ip: nip, ..s },
                    None => halt(s),
                }
            } else {
                VmState { ip: s.ip + 1, ..s }
            }
        } else if inst == OP_CLOSE {
            if s.tape[s.head0] != 0 {
                if s.ip == 0 {
                    halt(s)
                } else {
                    match find_open(s.tape, s.ip - 1, 1) {
                        Some(nip) => VmState { ip: nip, ..s },
                        None => halt(s),
                    }
                }
            } else {
                VmState { ip: s.ip + 1, ..s }
            }
        } else {
            VmState { ip: s.ip + 1, ..s }
        }
    }
}

/// Increment with wraparound modulo 256.
pub open spec fn inc_byte(b: u8) -> u8 {
    if b == 255 { 0 } else { (b + 1) as u8 }
}

/// Decrement with wraparound modulo 256.
pub open spec fn dec_byte(b: u8) -> u8 {
    if b == 0 { 255 } else { (b - 1) as u8 }
}

/// The state after at most `fuel` steps: stepping stops early only by halting.
pub open spec fn vm_run(s: VmState, fuel: nat) -> VmState
    decreases fuel,
{
    if fuel == 0 {
        s
    } else {
        vm_run(vm_step(s), (fuel - 1) as nat)
    }
}

/// A state whose cursors address the tape; every reachable state is one, and
/// on such states a step never changes the tape's length.
pub open spec fn wf(s: VmState) -> bool {
    ||| s.tape.len() == 0
    ||| (0 <= s.head0 < s.tape.len() && 0 <= s.head1 < s.tape.len())
}

/// A halted state never moves again.
pub proof fn lemma_vm_run_halted(s: VmState, fuel: nat)
    requires
        s.halted,
    ensures
        vm_run(s, fuel) == s,
    decreases fuel,
{
    if fuel > 0 {
        assert(vm_step(s) == s);
        lemma_vm_run_halted(s, (fuel - 1) as nat);
    }
}

/// One step of a well-formed state never changes the tape's length and keeps
/// the state well formed.
pub proof fn lemma_vm_step_len(s: VmState)
    requires
        wf(s),
    ensures
        vm_step(s).tape.len() == s.tape.len(),
        wf(vm_step(s)),
{
}

/// A run of a well-formed state never changes the tape's length.
pub proof fn lemma_vm_run_len(s: VmState, fuel: nat)
    requires
        wf(s),
    ensures
        vm_run(s, fuel).tape.len() == s.tape.len(),
        wf(vm_run(s, fuel)),
    decreases fuel,
{
    if fuel > 0 {
        lemma_vm_step_len(s);
        lemma_vm_run_len(vm_step(s), (fuel - 1) as nat);
    }
}

/// Runs compose: `a + b` steps are `a` steps and then `b` steps.
pub proof fn lemma_vm_run_add(s: VmState, a: nat, b: nat)
    ensures
        vm_run(s, (a + b) as nat) == vm_run(vm_run(s, a), b),
    decreases a,
{
    if a > 0 {
        lemma_vm_run_add(vm_step(s), (a - 1) as nat, b);
    }
}

/// If the step after the first `k` halts without touching the tape, the tape
/// after any larger bound is the tape after `k` steps.
proof fn lemma_halt_at(init: VmState, k: nat, limit: nat)
    requires
        k <= limit,
        vm_step(vm_run(init, k)).halted,
        vm_step(vm_run(init, k)).tape == vm_run(init, k).tape,
    ensures
        vm_run(init, limit).tape == vm_run(init, k).tape,
{
    let s = vm_run(init, k);
    lemma_vm_run_add(init, k, (limit - k) as nat);
    if limit - k > 0 {
        lemma_vm_run_halted(vm_step(s), (limit - k - 1) as nat);
    }
}

/// Forward scan for the close marker matching the open whose body starts at
/// `from`, as the engine performs it: returns exactly what `find_close` says.
fn scan_forward(tape: &Vec<u8>, from: usize) -> (r: Option<usize>)
    requires
        1 <= from <= tape@.len(),
    ensures
        match r {
            Some(p) => find_close(tape@, from as int, 1) == Some(p as int) && p <= tape@.len(),
            None => find_close(tape@, from as int, 1) is None,
        },
{
    let len = tape.len();
    let mut pos = from;
    let mut depth: usize = 1;
    while pos < len
        invariant
            1 <= from <= pos <= len,
            len == tape@.len(),
            1 <= depth <= pos - from + 1,
            find_close(tape@, from as int, 1) == find_close(tape@, pos as int, depth as int),
        decreases len - pos,
    {
        let inst = tape[pos];
        if inst == OP_OPEN {
            depth = depth + 1;
        } else if inst == OP_CLOSE {
            if depth == 1 {
                return Some(pos + 1);
            }
            depth = depth - 1;
        }
        pos = pos + 1;
    }
    None
}

/// Backward scan for the open marker matching the close just after `from`, as
/// the engine performs it: returns exactly what `find_open` says.
fn scan_backward(tape: &Vec<u8>, from: usize) -> (r: Option<usize>)
    requires
        from < tape@.len(),
    ensures
        match r {
            Some(p) => find_open(tape@, from as int, 1) == Some(p as int) && p <= tape@.len(),
            None => find_open(tape@, from as int, 1) is None,
        },
{
    let len = tape.len();
    let mut pos = from;
    let mut depth: usize = 1;
    loop
        invariant
            len == tape@.len(),
            pos <= from < len,
            1 <= depth <= from - pos + 1,
            find_open(tape@, from as int, 1) == find_open(tape@, pos as int, depth as int),
        decreases pos,
    {
        let inst = tape[pos];
        if inst == OP_OPEN {
            if depth == 1 {
                return Some(pos + 1);
            }
            if pos == 0 {
                return None;
            }
            depth = depth - 1;
        } else if inst == OP_CLOSE {
            if pos == 0 {
                return None;
            }
            depth = depth + 1;
        } else {
            if pos == 0 {
                return None;
            }
        }
        pos = pos - 1;
    }
}

/// Runs the engine in place over `tape` for at most `step_limit` steps. The
/// result is exactly the tape of the small-step model `vm_run`; in particular
/// the run always terminates and never changes the tape's length.
pub fn run_bff(tape: &mut Vec<u8>, step_limit: usize)
    ensures
        final(tape)@ == vm_run(init_state(old(tape)@), step_limit as nat).tape,
        final(tape)@.len() == old(tape)@.len(),
{
    let ghost init = init_state(old(tape)@);
    proof {
        lemma_vm_run_len(init, step_limit as nat);
    }
    let len = tape.len();
    if len == 0 {
        proof {
            lemma_halt_at(init, 0, step_limit as nat);
        }
        return;
    }
    let mut ip: usize = 0;
    let mut head0: usize = 0;
    let mut head1: usize = len / 2;
    let mut steps: usize = 0;
    let ghost mut st = init;

    while steps < step_limit
        invariant_except_break
            st == vm_run(init, steps as nat),
            !st.halted,
            st.tape == tape@,
            st.ip == ip as int,
            st.head0 == head0 as int,
            st.head1 == head1 as int,
            tape@.len() == len,
            0 < len,
            head0 < len,
            head1 < len,
            ip <= len,
            steps <= step_limit,
        ensures
            tape@ == vm_run(init, step_limit as nat).tape,
        decreases step_limit - steps,
    {
        if ip >= len {
            proof {
                lemma_halt_at(init, steps as nat, step_limit as nat);
            }
            break;
        }
        let inst = tape[ip];
        if inst == OP_FWD0 {
            head0 = (head0 + 1) % len;
            ip = ip + 1;
        } else if inst == OP_BACK0 {
            head0 = if head0 == 0 {
                len - 1
            } else {
                head0 - 1
            };
            ip = ip + 1;
        } else if inst == OP_FWD1 {
            head1 = (head1 + 1) % len;
            ip = ip + 1;
        } else if inst == OP_BACK1 {
            head1 = if head1 == 0 {
                len - 1
            } else {
                head1 - 1
            };
            ip = ip + 1;
        } else if inst == OP_INC {
            let v = tape[head0];
            let nv: u8 = if v == 255 { 0 } else { v + 1 };
            tape[head0] = nv;
            ip = ip + 1;
        } else if inst == OP_DEC {
            let v = tape[head0];
            let nv: u8 = if v == 0 { 255 } else { v - 1 };
            tape[head0] = nv;
            ip = ip + 1;
        } else if inst == OP_EXPORT {
            let v = tape[head0];
            tape[head1] = v;
            ip = ip + 1;
        } else if inst == OP_IMPORT {
            let v = tape[head1];
            tape[head0] = v;
            ip = ip + 1;
        } else if inst == OP_OPEN {
            if tape[head0] == 0 {
                match scan_forward(tape, ip + 1) {
                    Some(nip) => {
                        ip = nip;
                    },
                    None => {
                        proof {
                            lemma_halt_at(init, steps as nat, step_limit as nat);
                        }
                        break;
                    },
                }
            } else {
                ip = ip + 1;
            }
        } else if inst == OP_CLOSE {
            if tape[head0] != 0 {
                if ip == 0 {
                    proof {
                        lemma_halt_at(init, steps as nat, step_limit as nat);
                    }
                    break;
                }
                match scan_backward(tape, ip - 1) {
                    Some(nip) => {
                        ip = nip;
                    },
                    None => {
                        proof {
                            lemma_halt_at(init, steps as nat, step_limit as nat);
                        }
                        break;
                    },
                }
            } else {
                ip = ip + 1;
            }
        } else {
            ip = ip + 1;
        }
        proof {
            lemma_vm_run_add(init, steps as nat, 1);
            assert(vm_run(st, 1) == vm_step(st)) by {
                reveal_with_fuel(vm_run, 2);
            }
            st = vm_step(st);
        }
        steps = steps + 1;
    }
}

/// What one interaction computes: the tape `a + b` is run for `fuel` steps
/// and split back into its two halves.
pub open spec fn spec_interact(a: Seq<u8>, b: Seq<u8>, fuel: nat) -> (Seq<u8>, Seq<u8>) {
    let t = vm_run(init_state(a + b), fuel).tape;
    (t.take(a.len() as int), t.skip(a.len() as int))
}

/// Concatenates two genomes into a tape, runs the engine for at most
/// `step_limit` steps, and splits the tape back into two genomes. A pure
/// function of its arguments; both outputs keep the inputs' length.
pub fn interact(a: &Vec<u8>, b: &Vec<u8>, step_limit: usize) -> (r: (Vec<u8>, Vec<u8>))
    requires
        a@.len() == b@.len(),
    ensures
        r.0@ == spec_interact(a@, b@, step_limit as nat).0,
        r.1@ == spec_interact(a@, b@, step_limit as nat).1,
        r.0@.len() == a@.len(),
        r.1@.len() == b@.len(),
{
    let glen = a.len();
    let mut tape: Vec<u8> = Vec::new();
    let mut i: usize = 0;
    while i < glen
        invariant
            i <= glen,
            glen == a@.len(),
            tape@ == a@.take(i as int),
        decreases glen - i,
    {
        tape.push(a[i]);
        proof {
            assert(a@.take(i as int).push(a@[i as int]) =~= a@.take(i + 1));
        }
        i = i + 1;
    }
    i = 0;
    while i < glen
        invariant
            i <= glen,
            glen == a@.len() == b@.len(),
            tape@ == a@.take(glen as int) + b@.take(i as int),
        decreases glen - i,
    {
        tape.push(b[i]);
        proof {
            assert((a@.take(glen as int) + b@.take(i as int)).push(b@[i as int]) =~= a@.take(
                glen as int,
            ) + b@.take(i + 1));
        }
        i = i + 1;
    }
    proof {
        assert(tape@ =~= a@ + b@);
    }
    run_bff(&mut tape, step_limit);
    let ghost out = vm_run(init_state(a@ + b@), step_limit as nat).tape;
    let tlen = tape.len();
    proof {
        assert(tlen == 2 * glen);
    }
    let mut out_a: Vec<u8> = Vec::new();
    i = 0;
    while i < glen
        invariant
            i <= glen,
            glen == a@.len() == b@.len(),
            tape@ == out,
            out.len() == 2 * glen,
            out_a@ == out.take(glen as int).take(i as int),
        decreases glen - i,
    {
        out_a.push(tape[i]);
        proof {
            assert(out.take(glen as int).take(i as int).push(out[i as int]) =~= out.take(
                glen as int,
            ).take(i + 1));
        }
        i = i + 1;
    }
    let mut out_b: Vec<u8> = Vec::new();
    i = 0;
    while i < glen
        invariant
            i <= glen,
            glen == a@.len() == b@.len(),
            glen + glen <= usize::MAX,
            tape@ == out,
            out.len() == 2 * glen,
            out_b@ == out.skip(glen as int).take(i as int),
        decreases glen - i,
    {
        out_b.push(tape[glen + i]);
        proof {
            assert(out.skip(glen as int).take(i as int).push(out[glen + i]) =~= out.skip(
                glen as int,
            ).take(i + 1));
        }
        i = i + 1;
    }
    proof {
        assert(out_a@ =~= out.take(glen as int));
        assert(out_b@ =~= out.skip(glen as int));
    }
    (out_a, out_b)
}

/// The engine is total: for any two genomes and any step bound it halts
/// within the bound (the model `vm_run` consumes at most `fuel` steps, and
/// `run_bff` provably terminates) and returns two genomes of the inputs'
/// lengths.
pub proof fn lemma_interact_halts_with_lengths(a: Seq<u8>, b: Seq<u8>, fuel: nat)
    ensures
        spec_interact(a, b, fuel).0.len() == a.len(),
        spec_interact(a, b, fuel).1.len() == b.len(),
{
    lemma_vm_run_len(init_state(a + b), fuel);
}

/// An engine given a step bound of zero performs no instruction and returns
/// both genomes unchanged.
pub proof fn lemma_interact_zero_steps(a: Seq<u8>, b: Seq<u8>)
    ensures
        spec_interact(a, b, 0).0 == a,
        spec_interact(a, b, 0).1 == b,
{
    assert((a + b).take(a.len() as int) =~= a);
    assert((a + b).skip(a.len() as int) =~= b);
}

/// A tape of `n` open markers followed by `n` close markers, the fully nested
/// bracket program.
pub open spec fn nested_tape(n: nat) -> Seq<u8> {
    Seq::new(2 * n, |i: int| if i < n { OP_OPEN } else { OP_CLOSE })
}

/// Over the run of opens, a forward scan only accumulates depth.
proof fn lemma_fc_over_opens(n: nat, pos: int, depth: int)
    requires
        0 <= pos <= n,
    ensures
        find_close(nested_tape(n), pos, depth) == find_close(
            nested_tape(n),
            n as int,
            depth + n - pos,
        ),
    decreases n - pos,
{
    if pos < n {
        lemma_fc_over_opens(n, pos + 1, depth + 1);
    }
}

/// Over the run of closes, a forward scan entered with `depth` outstanding
/// opens resumes exactly `depth` positions further on.
proof fn lemma_fc_over_closes(n: nat, pos: int, depth: int)
    requires
        n <= pos < 2 * n,
        1 <= depth <= 2 * n - pos,
    ensures
        find_close(nested_tape(n), pos, depth) == Some(pos + depth),
    decreases 2 * n - pos,
{
    if depth > 1 {
        lemma_fc_over_closes(n, pos + 1, depth - 1);
    }
}

/// Bracket matching, forward: on the fully nested tape the scan for the open
/// marker at index `k` finds its matching close at index `2n - 1 - k` and
/// resumes just past it, at `2n - k` — the position an independent matcher of
/// nested brackets computes.
pub proof fn lemma_nested_forward_match(n: nat, k: int)
    requires
        0 <= k < n,
    ensures
        find_close(nested_tape(n), k + 1, 1) == Some(2 * n - k),
{
    lemma_fc_over_opens(n, k + 1, 1);
    lemma_fc_over_closes(n, n as int, n - k);
}

/// Over the run of closes, a backward scan only accumulates depth.
proof fn lemma_fo_over_closes(n: nat, pos: int, depth: int)
    requires
        n <= pos < 2 * n,
    ensures
        find_open(nested_tape(n), pos, depth) == find_open(
            nested_tape(n),
            n - 1,
            depth + pos - n + 1,
        ),
    decreases pos,
{
    if pos > n {
        lemma_fo_over_closes(n, pos - 1, depth + 1);
    }
}

/// Over the run of opens, a backward scan entered with `depth` outstanding
/// closes resumes at `pos - depth + 2`, just past the matching open.
proof fn lemma_fo_over_opens(n: nat, pos: int, depth: int)
    requires
        0 <= pos < n,
        1 <= depth <= pos + 1,
    ensures
        find_open(nested_tape(n), pos, depth) == Some(pos - depth + 2),
    decreases pos,
{
    if depth > 1 {
        lemma_fo_over_opens(n, pos - 1, depth - 1);
    }
}

/// Bracket matching, backward: on the fully nested tape the scan for the
/// close marker at index `n + j` finds its matching open at index
/// `n - 1 - j` and resumes just past it, at `n - j` — the position an
/// independent matcher of nested brackets computes.
pub proof fn lemma_nested_backward_match(n: nat, j: int)
    requires
        0 <= j < n,
    ensures
        find_open(nested_tape(n), n + j - 1, 1) == Some(n - j),
{
    if j == 0 {
        lemma_fo_over_opens(n, n - 1, 1);
    } else {
        lemma_fo_over_closes(n, n + j - 1, 1);
        lemma_fo_over_opens(n, n - 1, j + 1);
    }
}

} // verus!
