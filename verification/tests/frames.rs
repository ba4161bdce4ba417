use unkai::sampling;
use unkai::trace::{partial_trace, select_frames};

#[test]
fn sampling_matches_formula() {
    // (addr >> 3) % rate == 0
    assert!(sampling(0, 1));
    assert!(sampling(7, 1));
    assert!(!sampling(8, 2));
    assert!(sampling(16, 2));
    assert!(sampling(0, 1000));
    assert!(!sampling(8, 1000));
}

#[test]
fn sampling_is_deterministic() {
    for addr in [0usize, 8, 16, 4096, usize::MAX] {
        for rate in [1usize, 2, 97, 1000] {
            let first = sampling(addr, rate);
            for _ in 0..5 {
                assert_eq!(sampling(addr, rate), first);
            }
        }
    }
}

#[test]
fn select_frames_takes_window() {
    let ips = vec![10usize, 20, 30, 40, 50];
    assert_eq!(select_frames(&ips, 1, 2), vec![20, 30]);
    assert_eq!(select_frames(&ips, 0, 5), vec![10, 20, 30, 40, 50]);
    assert_eq!(select_frames(&ips, 4, 3), vec![50]);
    assert_eq!(select_frames(&ips, 7, 3), Vec::<usize>::new());
    assert_eq!(select_frames(&ips, 2, 0), Vec::<usize>::new());
}

#[test]
fn partial_trace_respects_fetch_bound() {
    let frames = partial_trace(0, 3);
    assert!(frames.len() <= 3);
    let none = partial_trace(0, 0);
    assert!(none.is_empty());
}

#[test]
fn partial_trace_finds_real_frames() {
    // Any running program has at least one stack frame to report.
    let frames = partial_trace(0, 16);
    assert!(!frames.is_empty());
}
