use pve_san_fenced::fence_sequence::{fence_start, fencing_step, FenceAction, FencePhase};

/// Runs the sequence; the write of the character at position i succeeds when
/// `ok(i)` holds, every other write succeeds.
fn run(chars: &[char], ok: impl Fn(usize) -> bool, timeout: u64) -> Vec<FenceAction> {
    let chars = chars.to_vec();
    let mut state = fence_start();
    let mut last = None;
    let mut out = Vec::new();
    for _ in 0..100 {
        let (next, action) = fencing_step(&chars, &state, last, timeout);
        out.push(action);
        last = match action {
            FenceAction::Write(_) if next.phase == FencePhase::Wrote => Some(ok(next.position)),
            FenceAction::Write(_) => Some(true),
            _ => None,
        };
        if action == FenceAction::Done {
            break;
        }
        state = next;
    }
    out
}

use FenceAction::{Done, Sleep, Write};

#[test]
fn sync_then_reboot_waits_and_retries() {
    assert_eq!(
        run(&['s', 'b'], |_| true, 10),
        vec![Write('s'), Sleep(1), Write('b'), Sleep(10), Write('b'), Done]
    );
}

#[test]
fn sequence_without_reboot_ends_with_one() {
    assert_eq!(run(&['c'], |_| true, 7), vec![Write('c'), Write('b'), Sleep(7), Done]);
    assert_eq!(run(&[], |_| true, 7), vec![Write('b'), Sleep(7), Done]);
}

#[test]
fn failed_reboot_write_falls_back() {
    assert_eq!(run(&['b'], |_| false, 5), vec![Write('b'), Write('b'), Sleep(5), Done]);
    assert_eq!(run(&['s'], |_| false, 5), vec![Write('s'), Sleep(1), Write('b'), Sleep(5), Done]);
}

#[test]
fn reboot_then_more_characters() {
    assert_eq!(
        run(&['b', 'u'], |_| true, 3),
        vec![Write('b'), Sleep(3), Write('b'), Write('u'), Done]
    );
}
