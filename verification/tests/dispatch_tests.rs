//! Tests for the claim arbiter: all-or-nothing granting, writer exclusion,
//! reader coexistence and critical sections.

use minimum::context_flags::PLAYMODE_PLAYING;
use minimum::dispatch::critical_section_read_request;
use minimum::dispatch::critical_section_write_request;
use minimum::dispatch::ClaimRequest;
use minimum::dispatch::DispatchControl;
use minimum::dispatch::ResourceClaims;

fn request(reads: &[usize], writes: &[usize]) -> ClaimRequest {
    ClaimRequest { reads: reads.to_vec(), writes: writes.to_vec() }
}

#[test]
fn test_disjoint_claims_granted_together() {
    let mut claims = ResourceClaims::new(4);
    let first = request(&[0], &[1]);
    let second = request(&[2], &[3]);

    assert!(claims.can_grant(&first));
    assert!(claims.can_grant(&second));
    claims.acquire_all(&first);
    // Disjoint resource sets stay grantable while the first is held: the two
    // tasks are eligible to run concurrently.
    assert!(claims.can_grant(&second));
    claims.acquire_all(&second);

    claims.release_all(&first);
    claims.release_all(&second);
    assert!(claims.can_grant(&request(&[0, 1, 2, 3], &[])));
}

#[test]
fn test_writer_excludes_readers_and_writers() {
    let mut claims = ResourceClaims::new(2);
    let writer = request(&[], &[0]);
    claims.acquire_all(&writer);

    // While the writer claim is held, neither a reader nor another writer of
    // the same resource can be granted: conflicting tasks are serialized.
    assert!(!claims.can_grant(&request(&[0], &[])));
    assert!(!claims.can_grant(&request(&[], &[0])));
    // An unrelated resource is untouched.
    assert!(claims.can_grant(&request(&[1], &[])));

    claims.release_all(&writer);
    assert!(claims.can_grant(&request(&[0], &[])));
}

#[test]
fn test_readers_coexist_and_block_writer() {
    let mut claims = ResourceClaims::new(1);
    let reader = request(&[0], &[]);
    claims.acquire_all(&reader);
    // Multiple reader claims on one resource may coexist.
    assert!(claims.can_grant(&reader));
    claims.acquire_all(&reader);

    // A writer claim must wait until every reader released.
    assert!(!claims.can_grant(&request(&[], &[0])));
    claims.release_all(&reader);
    assert!(!claims.can_grant(&request(&[], &[0])));
    claims.release_all(&reader);
    assert!(claims.can_grant(&request(&[], &[0])));
}

#[test]
fn test_critical_sections_take_whole_map() {
    let mut claims = ResourceClaims::new(3);

    let shared = critical_section_read_request(3);
    assert_eq!(shared.reads, vec![0, 1, 2]);
    assert!(claims.can_grant(&shared));
    claims.acquire_all(&shared);

    // A shared critical section coexists with per-resource readers but
    // blocks every writer.
    assert!(claims.can_grant(&request(&[1], &[])));
    assert!(!claims.can_grant(&request(&[], &[2])));
    claims.release_all(&shared);

    let exclusive = critical_section_write_request(3);
    assert_eq!(exclusive.writes, vec![0, 1, 2]);
    claims.acquire_all(&exclusive);
    // An exclusive critical section blocks everything.
    assert!(!claims.can_grant(&request(&[0], &[])));
    assert!(!claims.can_grant(&request(&[], &[1])));
    claims.release_all(&exclusive);
    assert!(claims.can_grant(&exclusive));
}

#[test]
fn test_dispatch_control_terminates_loop() {
    let mut control = DispatchControl::new(PLAYMODE_PLAYING);
    assert!(!control.should_terminate);
    assert_eq!(control.next_frame_context_flags, PLAYMODE_PLAYING);

    control.set_next_frame_context_flags(PLAYMODE_PLAYING | 16);
    control.end_game_loop();
    assert!(control.should_terminate);
    assert_eq!(control.next_frame_context_flags, PLAYMODE_PLAYING | 16);
}
