//! The SysRq fencing sequence as a state machine: each step takes the state and
//! the outcome of the last write, and gives the next state and the next thing to
//! do. The configured characters are written in order; a sync (`s`) is followed
//! by a one-second wait; a successful reboot (`b`) is followed by the reboot
//! timeout and a second `b`; a sequence that sent no reboot ends with a `b` and
//! the reboot timeout.
use vstd::prelude::*;

verus! {

/// What to do next.
#[derive(Debug, Clone, Copy, PartialEq, Eq, Structural)]
pub enum FenceAction {
    /// Write this character to the SysRq trigger.
    Write(char),
    /// Wait this many seconds.
    Sleep(u64),
    /// The sequence is over.
    Done,
}

/// Where the sequence stands.
#[derive(Debug, Clone, Copy, PartialEq, Eq, Structural)]
pub enum FencePhase {
    /// About to handle the character at the position (or the end).
    Ready,
    /// The character at the position was just written.
    Wrote,
    /// Waited after a successful reboot write.
    RebootWaited,
    /// Wrote the second reboot character.
    RebootRetried,
    /// Wrote the final reboot character of a sequence that sent none.
    FinalWrote,
    /// Nothing is left to do.
    Finished,
}

/// The state of the sequence: the position in the characters, whether a reboot
/// write succeeded, and the phase.
#[derive(Debug, Clone, Copy, PartialEq, Eq, Structural)]
pub struct FenceState {
    pub position: usize,
    pub sent_reboot: bool,
    pub phase: FencePhase,
}

/// A state the sequence can be in for these characters (as many as a `Vec` can
/// hold): the position is within them, and it names a character in the phases
/// that follow a write of it.
pub open spec fn fence_state_ok(chars: Seq<char>, st: FenceState) -> bool {
    &&& chars.len() <= usize::MAX
    &&& st.position <= chars.len()
    &&& (st.phase is Wrote || st.phase is RebootWaited || st.phase is RebootRetried) ==> st.position
        < chars.len()
}

/// Handling the position: write its character, or at the end write a final `b`
/// when no reboot was sent, else finish.
pub open spec fn fence_ready(chars: Seq<char>, pos: usize, sent: bool) -> (FenceState, FenceAction) {
    if pos < chars.len() {
        (FenceState { position: pos, sent_reboot: sent, phase: FencePhase::Wrote }, FenceAction::Write(chars[pos as int]))
    } else if !sent {
        (FenceState { position: pos, sent_reboot: sent, phase: FencePhase::FinalWrote }, FenceAction::Write('b'))
    } else {
        (FenceState { position: pos, sent_reboot: sent, phase: FencePhase::Finished }, FenceAction::Done)
    }
}

/// One step of the sequence, given whether the last write succeeded.
/// - After writing `b` successfully: record the reboot and wait the reboot timeout,
///   then write `b` again, then go on with the next character.
/// - After writing `s` (otherwise): wait one second, then go on.
/// - After writing any other character: go on with the next one.
/// - At the end: a final `b` and the reboot timeout when no reboot was sent; done.
pub open spec fn fence_step(
    chars: Seq<char>,
    st: FenceState,
    last_write_ok: Option<bool>,
    reboot_timeout: u64,
) -> (FenceState, FenceAction) {
    match st.phase {
        FencePhase::Ready => fence_ready(chars, st.position, st.sent_reboot),
        FencePhase::Wrote => {
            let c = chars[st.position as int];
            if last_write_ok == Some(true) && c == 'b' {
                (
                    FenceState { position: st.position, sent_reboot: true, phase: FencePhase::RebootWaited },
                    FenceAction::Sleep(reboot_timeout),
                )
            } else if c == 's' {
                (
                    FenceState { position: (st.position + 1) as usize, sent_reboot: st.sent_reboot, phase: FencePhase::Ready },
                    FenceAction::Sleep(1),
                )
            } else {
                fence_ready(chars, (st.position + 1) as usize, st.sent_reboot)
            }
        },
        FencePhase::RebootWaited => (
            FenceState { position: st.position, sent_reboot: st.sent_reboot, phase: FencePhase::RebootRetried },
            FenceAction::Write('b'),
        ),
        FencePhase::RebootRetried => fence_ready(chars, (st.position + 1) as usize, st.sent_reboot),
        FencePhase::FinalWrote => (
            FenceState { position: st.position, sent_reboot: st.sent_reboot, phase: FencePhase::Finished },
            FenceAction::Sleep(reboot_timeout),
        ),
        FencePhase::Finished => (st, FenceAction::Done),
    }
}

/// The state the sequence starts in.
pub fn fence_start() -> (r: FenceState)
    ensures
        r == (FenceState { position: 0, sent_reboot: false, phase: FencePhase::Ready }),
{
    FenceState { position: 0, sent_reboot: false, phase: FencePhase::Ready }
}

fn ready_exec(chars: &Vec<char>, pos: usize, sent: bool) -> (r: (FenceState, FenceAction))
    requires
        pos <= chars.len(),
    ensures
        r == fence_ready(chars@, pos, sent),
        fence_state_ok(chars@, r.0),
{
    if pos < chars.len() {
        (FenceState { position: pos, sent_reboot: sent, phase: FencePhase::Wrote }, FenceAction::Write(chars[pos]))
    } else if !sent {
        (FenceState { position: pos, sent_reboot: sent, phase: FencePhase::FinalWrote }, FenceAction::Write('b'))
    } else {
        (FenceState { position: pos, sent_reboot: sent, phase: FencePhase::Finished }, FenceAction::Done)
    }
}

/// The next state and action of the fencing sequence (see `fence_step`).
pub fn fencing_step(
    chars: &Vec<char>,
    state: &FenceState,
    last_write_ok: Option<bool>,
    reboot_timeout: u64,
) -> (r: (FenceState, FenceAction))
    requires
        fence_state_ok(chars@, *state),
    ensures
        r == fence_step(chars@, *state, last_write_ok, reboot_timeout),
        fence_state_ok(chars@, r.0),
{
    let pos = state.position;
    match state.phase {
        FencePhase::Ready => ready_exec(chars, pos, state.sent_reboot),
        FencePhase::Wrote => {
            assert(pos < chars.len());
            let c = chars[pos];
            let ok = match last_write_ok {
                Some(b) => b,
                None => false,
            };
            if ok && c == 'b' {
                (
                    FenceState { position: pos, sent_reboot: true, phase: FencePhase::RebootWaited },
                    FenceAction::Sleep(reboot_timeout),
                )
            } else if c == 's' {
                (FenceState { position: pos + 1, sent_reboot: state.sent_reboot, phase: FencePhase::Ready }, FenceAction::Sleep(1))
            } else {
                ready_exec(chars, pos + 1, state.sent_reboot)
            }
        },
        FencePhase::RebootWaited => (
            FenceState { position: pos, sent_reboot: state.sent_reboot, phase: FencePhase::RebootRetried },
            FenceAction::Write('b'),
        ),
        FencePhase::RebootRetried => ready_exec(chars, pos + 1, state.sent_reboot),
        FencePhase::FinalWrote => (
            FenceState { position: pos, sent_reboot: state.sent_reboot, phase: FencePhase::Finished },
            FenceAction::Sleep(reboot_timeout),
        ),
        FencePhase::Finished => (*state, FenceAction::Done),
    }
}

// ---------------------------------------------------------------------------
// The whole sequence.
// ---------------------------------------------------------------------------

pub open spec fn phase_rank(p: FencePhase) -> nat {
    match p {
        FencePhase::Ready => 4,
        FencePhase::Wrote => 3,
        FencePhase::RebootWaited => 2,
        FencePhase::RebootRetried => 1,
        FencePhase::FinalWrote => 2,
        FencePhase::Finished => 0,
    }
}

/// What is left of the sequence: positions to go, then the phase.
pub open spec fn fence_measure(chars: Seq<char>, st: FenceState) -> nat {
    ((chars.len() - st.position) * 5 + phase_rank(st.phase)) as nat
}

/// The outcome of the last write that a step reads: after the write of the
/// character at the position, whether it succeeded (`ok` of the position); the
/// outcomes of the other writes change nothing.
pub open spec fn write_outcome(st: FenceState, ok: spec_fn(int) -> bool) -> Option<bool> {
    if st.phase is Wrote {
        Some(ok(st.position as int))
    } else {
        None
    }
}

/// A step that does not finish leads to a state that is again valid and has less left.
pub proof fn lemma_step_progress(chars: Seq<char>, st: FenceState, last: Option<bool>, t: u64)
    requires
        fence_state_ok(chars, st),
        !(fence_step(chars, st, last, t).1 is Done),
    ensures
        fence_state_ok(chars, fence_step(chars, st, last, t).0),
        fence_measure(chars, fence_step(chars, st, last, t).0) < fence_measure(chars, st),
{
}

/// The actions of the sequence from a state on, when the write of the character
/// at position i succeeds exactly when `ok(i)`: each step's action, up to `Done`.
pub open spec fn fence_run(chars: Seq<char>, st: FenceState, ok: spec_fn(int) -> bool, t: u64) -> Seq<FenceAction>
    decreases fence_measure(chars, st),
    when fence_state_ok(chars, st)
{
    let r = fence_step(chars, st, write_outcome(st, ok), t);
    if r.1 is Done {
        seq![FenceAction::Done]
    } else {
        proof {
            lemma_step_progress(chars, st, write_outcome(st, ok), t);
        }
        seq![r.1] + fence_run(chars, r.0, ok, t)
    }
}

/// The sequence as the daemon promises it, from position `i` on: each character
/// is written in order; a successful `b` is followed by the reboot timeout and a
/// second `b`; an `s` (that is not such a `b`) by one second; at the end, when no
/// reboot was sent, a `b` and the reboot timeout; then it is done.
pub open spec fn fence_plan(chars: Seq<char>, i: int, sent: bool, ok: spec_fn(int) -> bool, t: u64) -> Seq<
    FenceAction,
>
    decreases chars.len() - i,
{
    if 0 <= i < chars.len() {
        let c = chars[i];
        seq![FenceAction::Write(c)] + if ok(i) && c == 'b' {
            seq![FenceAction::Sleep(t), FenceAction::Write('b')] + fence_plan(chars, i + 1, true, ok, t)
        } else if c == 's' {
            seq![FenceAction::Sleep(1)] + fence_plan(chars, i + 1, sent, ok, t)
        } else {
            fence_plan(chars, i + 1, sent, ok, t)
        }
    } else if !sent {
        seq![FenceAction::Write('b'), FenceAction::Sleep(t), FenceAction::Done]
    } else {
        seq![FenceAction::Done]
    }
}

proof fn lemma_run_same_step(
    chars: Seq<char>,
    a: FenceState,
    b: FenceState,
    ok: spec_fn(int) -> bool,
    t: u64,
)
    requires
        fence_state_ok(chars, a),
        fence_state_ok(chars, b),
        fence_step(chars, a, write_outcome(a, ok), t) == fence_step(chars, b, write_outcome(b, ok), t),
    ensures
        fence_run(chars, a, ok, t) == fence_run(chars, b, ok, t),
{
    let r = fence_step(chars, a, write_outcome(a, ok), t);
    if !(r.1 is Done) {
        lemma_step_progress(chars, a, write_outcome(a, ok), t);
    }
}

proof fn lemma_run_ready(chars: Seq<char>, i: int, sent: bool, ok: spec_fn(int) -> bool, t: u64)
    requires
        0 <= i <= chars.len(),
        chars.len() <= usize::MAX,
    ensures
        fence_run(chars, FenceState { position: i as usize, sent_reboot: sent, phase: FencePhase::Ready }, ok, t)
            == fence_plan(chars, i, sent, ok, t),
    decreases chars.len() - i,
{
    let st = FenceState { position: i as usize, sent_reboot: sent, phase: FencePhase::Ready };
    assert(fence_state_ok(chars, st));
    if i < chars.len() {
        let c = chars[i];
        let w = FenceState { position: i as usize, sent_reboot: sent, phase: FencePhase::Wrote };
        assert(fence_step(chars, st, write_outcome(st, ok), t) == (w, FenceAction::Write(c)));
        lemma_step_progress(chars, st, write_outcome(st, ok), t);
        assert(fence_run(chars, st, ok, t) == seq![FenceAction::Write(c)] + fence_run(chars, w, ok, t));
        let next = FenceState { position: (i + 1) as usize, sent_reboot: sent, phase: FencePhase::Ready };
        if ok(i) && c == 'b' {
            let rw = FenceState { position: i as usize, sent_reboot: true, phase: FencePhase::RebootWaited };
            let rr = FenceState { position: i as usize, sent_reboot: true, phase: FencePhase::RebootRetried };
            let nt = FenceState { position: (i + 1) as usize, sent_reboot: true, phase: FencePhase::Ready };
            assert(fence_step(chars, w, write_outcome(w, ok), t) == (rw, FenceAction::Sleep(t)));
            lemma_step_progress(chars, w, write_outcome(w, ok), t);
            assert(fence_step(chars, rw, write_outcome(rw, ok), t) == (rr, FenceAction::Write('b')));
            lemma_step_progress(chars, rw, write_outcome(rw, ok), t);
            lemma_run_same_step(chars, rr, nt, ok, t);
            lemma_run_ready(chars, i + 1, true, ok, t);
            assert(fence_run(chars, w, ok, t) == seq![FenceAction::Sleep(t)] + fence_run(chars, rw, ok, t));
            assert(fence_run(chars, rw, ok, t) == seq![FenceAction::Write('b')] + fence_run(chars, rr, ok, t));
            assert(fence_run(chars, st, ok, t) =~= fence_plan(chars, i, sent, ok, t));
        } else if c == 's' {
            assert(fence_step(chars, w, write_outcome(w, ok), t) == (next, FenceAction::Sleep(1)));
            lemma_step_progress(chars, w, write_outcome(w, ok), t);
            lemma_run_ready(chars, i + 1, sent, ok, t);
            assert(fence_run(chars, w, ok, t) == seq![FenceAction::Sleep(1)] + fence_run(chars, next, ok, t));
            assert(fence_run(chars, st, ok, t) =~= fence_plan(chars, i, sent, ok, t));
        } else {
            lemma_run_same_step(chars, w, next, ok, t);
            lemma_run_ready(chars, i + 1, sent, ok, t);
            assert(fence_run(chars, st, ok, t) =~= fence_plan(chars, i, sent, ok, t));
        }
    } else if !sent {
        let fw = FenceState { position: i as usize, sent_reboot: sent, phase: FencePhase::FinalWrote };
        let fin = FenceState { position: i as usize, sent_reboot: sent, phase: FencePhase::Finished };
        assert(fence_step(chars, st, write_outcome(st, ok), t) == (fw, FenceAction::Write('b')));
        lemma_step_progress(chars, st, write_outcome(st, ok), t);
        assert(fence_step(chars, fw, write_outcome(fw, ok), t) == (fin, FenceAction::Sleep(t)));
        lemma_step_progress(chars, fw, write_outcome(fw, ok), t);
        assert(fence_run(chars, fin, ok, t) == seq![FenceAction::Done]);
        assert(fence_run(chars, fw, ok, t) == seq![FenceAction::Sleep(t)] + fence_run(chars, fin, ok, t));
        assert(fence_run(chars, st, ok, t) =~= fence_plan(chars, i, sent, ok, t));
    } else {
        assert(fence_run(chars, st, ok, t) =~= fence_plan(chars, i, sent, ok, t));
    }
}

/// The whole sequence: stepping from the start, with the write of the character
/// at position i succeeding exactly when `ok(i)`, gives the promised actions (see
/// `fence_plan`): the characters in order, one second after a sync, the reboot
/// timeout and a second `b` after a successful reboot, and a final `b` with the
/// reboot timeout when no reboot was sent.
pub proof fn lemma_fencing_sequence(chars: Seq<char>, ok: spec_fn(int) -> bool, t: u64)
    requires
        chars.len() <= usize::MAX,
    ensures
        fence_run(chars, FenceState { position: 0, sent_reboot: false, phase: FencePhase::Ready }, ok, t)
            == fence_plan(chars, 0, false, ok, t),
{
    lemma_run_ready(chars, 0, false, ok, t);
}

} // verus!
