use lean_helix_view::forward::FirstClosed;
use lean_helix_view::run::{
    must_kill, not_found_message, shutdown, upstream_command, ShutdownStep, Waited, NEVER_STARTED,
    REAP_GRACE_SECS,
};
use lean_helix_view::server::{ClaimEvent, ClaimStep};
use lean_helix_view::viewer::{DialEvent, DialStep};

#[test]
fn upstream_command_is_program_and_arguments() {
    let words = vec!["lake".to_string(), "serve".to_string(), "-v".to_string()];
    let upstream = upstream_command(words).unwrap();
    assert_eq!(upstream.program, "lake");
    assert_eq!(upstream.args, ["serve", "-v"]);
    assert!(upstream_command(vec![]).is_none());
}

#[test]
fn messages_say_what_to_do() {
    let message = not_found_message("definitely-not-a-real-binary-xyz-12345");
    assert!(message.contains("not found"));
    assert!(message.contains("definitely-not-a-real-binary-xyz-12345"));
    assert!(NEVER_STARTED.contains("without starting up"));
    assert!(NEVER_STARTED.contains("lake build"));
}

#[test]
fn shutdown_follows_the_side_that_closed() {
    for spoke in [false, true] {
        assert_eq!(
            shutdown(FirstClosed::Client, spoke),
            [
                ShutdownStep::Reap,
                ShutdownStep::JoinServerPump,
                ShutdownStep::DrainWriters,
            ]
        );
    }
    assert_eq!(
        shutdown(FirstClosed::Server, true),
        [
            ShutdownStep::AbortClientPump,
            ShutdownStep::Reap,
            ShutdownStep::DrainWriters,
        ]
    );
    assert_eq!(
        shutdown(FirstClosed::Server, false),
        [
            ShutdownStep::ReportNeverStarted,
            ShutdownStep::AbortClientPump,
            ShutdownStep::Reap,
            ShutdownStep::DrainWriters,
        ]
    );
}

#[test]
fn only_an_overstaying_server_is_killed() {
    assert_eq!(REAP_GRACE_SECS, 5);
    assert!(!must_kill(Waited::Exited));
    assert!(!must_kill(Waited::Failed));
    assert!(must_kill(Waited::Overstayed));
}

#[test]
fn a_free_path_is_bound() {
    assert_eq!(ClaimStep::first(), ClaimStep::Bind);
    assert_eq!(ClaimStep::first().next(ClaimEvent::Done), ClaimStep::Serve);
    assert_eq!(ClaimStep::first().next(ClaimEvent::Failed), ClaimStep::Fail);
}

#[test]
fn a_stale_path_is_reclaimed() {
    let probe = ClaimStep::first().next(ClaimEvent::InUse);
    assert_eq!(probe, ClaimStep::Probe);
    let reclaim = probe.next(ClaimEvent::Failed);
    assert_eq!(reclaim, ClaimStep::Reclaim);
    assert_eq!(reclaim.next(ClaimEvent::Done), ClaimStep::Serve);
    assert_eq!(reclaim.next(ClaimEvent::InUse), ClaimStep::Fail);
    assert_eq!(reclaim.next(ClaimEvent::Failed), ClaimStep::Fail);
}

#[test]
fn a_live_path_is_left_alone() {
    let aside = ClaimStep::first().next(ClaimEvent::InUse).next(ClaimEvent::Done);
    assert_eq!(aside, ClaimStep::StandAside);
    assert_eq!(aside.next(ClaimEvent::Failed), ClaimStep::StandAside);
}

#[test]
fn the_viewer_dials_again() {
    let dial = DialStep::first();
    assert_eq!(dial, DialStep::Dial);
    assert_eq!(dial.next(DialEvent::Failed), DialStep::Wait);
    assert_eq!(dial.next(DialEvent::Failed).next(DialEvent::Waited), DialStep::Dial);
    let follow = dial.next(DialEvent::Connected);
    assert_eq!(follow, DialStep::Follow);
    let gone = follow.next(DialEvent::Disconnected);
    assert_eq!(gone, DialStep::Wait);
    assert_eq!(gone.next(DialEvent::Waited), DialStep::Dial);
}
