use xchannel_net::mux_idle::{next_round, IdleAction, MuxIdle};
use xchannel_net::node::duty::DutyRound;
use xchannel_net::startup::mux_idle;
use xchannel_net::time::Duration;

/// The idle escalation, asserted on the *decision* rather than on elapsed time so it is
/// deterministic. The load-bearing property is the first line: round 0 — the round immediately after
/// a poll came up empty — must be a spin, because that is the round a record arriving microseconds
/// later has to wait through.
#[test]
fn mux_idle_escalates_from_spin_to_a_capped_park() {
    let idle = MuxIdle {
        max_spins: 2,
        max_yields: 2,
        min_park: Duration::from_micros(50),
        max_park: Duration::from_micros(200),
    };
    assert_eq!(idle.action(0), IdleAction::Spin, "first idle round is hot");
    assert_eq!(idle.action(1), IdleAction::Spin);
    assert_eq!(idle.action(2), IdleAction::Yield);
    assert_eq!(idle.action(3), IdleAction::Yield);
    // Then park, doubling from min_park and clamped at max_park.
    assert_eq!(idle.action(4), IdleAction::Park(Duration::from_micros(50)));
    assert_eq!(idle.action(5), IdleAction::Park(Duration::from_micros(100)));
    assert_eq!(idle.action(6), IdleAction::Park(Duration::from_micros(200)));
    assert_eq!(
        idle.action(7),
        IdleAction::Park(Duration::from_micros(200)),
        "clamped, not doubling forever"
    );
    // A loop idle for hours must not overflow the shift.
    assert_eq!(idle.action(u32::MAX), IdleAction::Park(Duration::from_micros(200)));
}

/// `max_park: 0` means never park — the loop stays on `yield_now` forever, for a core given over to a
/// latency-critical topic.
#[test]
fn mux_idle_with_no_park_ceiling_never_sleeps() {
    let idle = MuxIdle {
        max_spins: 1,
        max_yields: 1,
        max_park: Duration::zero(),
        ..MuxIdle::default()
    };
    assert_eq!(idle.action(0), IdleAction::Spin);
    for round in [1, 2, 500, u32::MAX] {
        assert_eq!(idle.action(round), IdleAction::Yield, "round {round} must not park");
    }
}

/// The defaults: 512 spins, 128 yields, then parks from 50 µs to 5 ms.
#[test]
fn the_default_idle_decays_to_five_milliseconds() {
    let idle = MuxIdle::default();
    assert_eq!(idle.action(511), IdleAction::Spin);
    assert_eq!(idle.action(512), IdleAction::Yield);
    assert_eq!(idle.action(639), IdleAction::Yield);
    assert_eq!(idle.action(640), IdleAction::Park(Duration::from_micros(50)));
    assert_eq!(idle.action(646), IdleAction::Park(Duration::from_micros(3_200)));
    assert_eq!(idle.action(647), IdleAction::Park(Duration::from_millis(5)));
}

#[test]
fn only_the_longest_park_can_be_set() {
    assert_eq!(mux_idle(None), MuxIdle::default());
    let set = mux_idle(Some(0));
    assert!(set.max_park.is_zero());
    assert_eq!(MuxIdle { max_park: Duration::from_millis(5), ..set }, MuxIdle::default());
    assert_eq!(mux_idle(Some(7)).max_park, Duration::from_micros(7));
}

#[test]
fn work_resets_the_idle_count() {
    assert_eq!(next_round(41, 3), 0);
    assert_eq!(next_round(41, 0), 42);
    assert_eq!(next_round(u32::MAX, 0), u32::MAX);
}

/// A round that moved something is followed at once by another; a round that found nothing waits as
/// its place in the run of empty rounds says. An item that failed leaves the cycle.
#[test]
fn a_duty_round_backs_off_only_when_it_found_nothing() {
    let idle = MuxIdle::default();
    let mut busy = DutyRound::new();
    assert!(busy.polled(Some(0)));
    assert!(!busy.polled(None), "a broken connection is retired");
    assert!(busy.polled(Some(256)));
    assert_eq!(busy.work, 256);
    let p = busy.finish(idle, 700);
    assert!(p.action.is_none());
    assert_eq!(p.round, 0);

    let mut empty = DutyRound::new();
    assert!(!empty.polled(None));
    let p = empty.finish(idle, 640);
    assert_eq!(p.action, Some(IdleAction::Park(Duration::from_micros(50))));
    assert_eq!(p.round, 641);

    let mut huge = DutyRound::new();
    huge.polled(Some(usize::MAX));
    huge.polled(Some(2));
    assert_eq!(huge.work, usize::MAX);
}
