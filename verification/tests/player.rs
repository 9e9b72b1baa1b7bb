use zmp::filter::Filter;
use zmp::player::{resolve_queue_sync, CandidateRun, PlayQueue, PreviousStep, QueueSyncResult};
use zmp::song::Song;
use zmp::song_query::SongWithFilters;

fn song(id: i32) -> SongWithFilters {
    SongWithFilters {
        song: Song {
            id,
            title: format!("song-{id}"),
            artist: "artist".to_string(),
            release_year: 1999,
            album: "album".to_string(),
            remix: String::new(),
            search_blob: format!("song-{id}"),
            file_path: format!("/music/{id}.mp3"),
            duration: 180,
            extension: "mp3".to_string(),
            file_size: 4_096,
            file_modified_millis: 1_700_000_000_000,
        },
        filters: Vec::<Filter>::new(),
    }
}

#[test]
fn resolve_queue_sync_retargets_the_current_song_when_it_moves() {
    let result = resolve_queue_sync(Some(2), &[song(1), song(3), song(2)]);

    assert_eq!(
        result,
        QueueSyncResult {
            current_index: Some(2),
            cleared_current_song: false,
        }
    );
}

#[test]
fn resolve_queue_sync_reports_when_the_current_song_disappears() {
    let result = resolve_queue_sync(Some(7), &[song(1), song(2), song(3)]);

    assert_eq!(
        result,
        QueueSyncResult {
            current_index: None,
            cleared_current_song: true,
        }
    );
}

#[test]
fn resolve_queue_sync_does_not_clear_when_nothing_was_selected() {
    let result = resolve_queue_sync(None, &[song(1), song(2)]);

    assert_eq!(
        result,
        QueueSyncResult {
            current_index: None,
            cleared_current_song: false,
        }
    );
}

#[test]
fn resolve_queue_sync_picks_the_first_of_repeated_ids() {
    let result = resolve_queue_sync(Some(4), &[song(1), song(4), song(4)]);
    assert_eq!(result.current_index, Some(1));
}

fn queue_of(ids: &[i32]) -> PlayQueue {
    let mut q = PlayQueue::new();
    q.set_queue(ids.iter().map(|id| song(*id)).collect());
    q
}

#[test]
fn set_queue_keeps_the_current_song_selected() {
    let mut q = queue_of(&[1, 2, 3]);
    q.start_at(1);
    let sync = q.set_queue(vec![song(5), song(2), song(1)]);
    assert_eq!(sync, QueueSyncResult { current_index: Some(1), cleared_current_song: false });
    assert_eq!(q.current_song_id(), Some(2));
}

#[test]
fn set_queue_clears_when_the_current_song_is_gone_or_the_list_is_empty() {
    let mut q = queue_of(&[1, 2, 3]);
    q.start_at(0);
    let sync = q.set_queue(vec![song(2), song(3)]);
    assert_eq!(sync, QueueSyncResult { current_index: None, cleared_current_song: true });
    assert_eq!(q.current_index(), None);

    let mut q = queue_of(&[1, 2]);
    q.start_at(1);
    let sync = q.set_queue(Vec::new());
    assert_eq!(sync, QueueSyncResult { current_index: None, cleared_current_song: true });
    assert_eq!(q.current_song(), None);
}

#[test]
fn next_candidates_rotate_after_the_current_song() {
    let mut q = queue_of(&[10, 11, 12, 13]);
    q.start_at(2);
    assert_eq!(q.next_song_candidates(), vec![3, 0, 1]);
}

#[test]
fn next_candidates_without_current_song_try_every_position() {
    let q = queue_of(&[10, 11, 12]);
    assert_eq!(q.next_song_candidates(), vec![0, 1, 2]);
}

#[test]
fn next_candidates_with_repeat_retry_the_current_song() {
    let mut q = queue_of(&[10, 11, 12]);
    q.start_at(1);
    q.set_repeat(true);
    assert_eq!(q.next_song_candidates(), vec![1]);
    let mut empty = PlayQueue::new();
    empty.set_repeat(true);
    assert!(empty.next_song_candidates().is_empty());
}

#[test]
fn next_candidates_of_a_single_song_is_that_song() {
    let mut q = queue_of(&[10]);
    q.start_at(0);
    q.set_shuffle(true);
    assert_eq!(q.next_song_candidates(), vec![0]);
}

#[test]
fn shuffled_candidates_are_every_other_position_once() {
    let mut q = queue_of(&[10, 11, 12, 13, 14, 15]);
    q.start_at(3);
    q.set_shuffle(true);
    for _ in 0..20 {
        let mut c = q.next_song_candidates();
        c.sort();
        assert_eq!(c, vec![0, 1, 2, 4, 5]);
    }
}

#[test]
fn previous_step_walks_backwards_and_wraps() {
    let mut q = queue_of(&[10, 11, 12, 13]);
    q.start_at(1);
    assert_eq!(q.previous_song_step(), PreviousStep::Candidates(vec![0, 3, 2]));
    q.start_at(0);
    assert_eq!(q.previous_song_step(), PreviousStep::Candidates(vec![3, 2, 1]));
}

#[test]
fn previous_step_with_repeat_restarts() {
    let mut q = queue_of(&[10, 11]);
    q.start_at(1);
    q.set_repeat(true);
    assert_eq!(q.previous_song_step(), PreviousStep::Restart);
}

#[test]
fn previous_step_edge_cases() {
    let q = PlayQueue::new();
    assert_eq!(q.previous_song_step(), PreviousStep::Candidates(Vec::new()));
    let q = queue_of(&[10, 11]);
    assert_eq!(q.previous_song_step(), PreviousStep::Candidates(vec![0, 1]));
    let mut q = queue_of(&[10]);
    q.start_at(0);
    assert_eq!(q.previous_song_step(), PreviousStep::Candidates(vec![0]));
}

#[test]
fn next_then_previous_returns_to_the_start() {
    let mut q = queue_of(&[10, 11, 12, 13, 14]);
    q.start_at(4);
    let next = q.next_song_candidates()[0];
    assert_eq!(next, 0);
    q.start_at(next);
    match q.previous_song_step() {
        PreviousStep::Candidates(c) => assert_eq!(c[0], 4),
        PreviousStep::Restart => panic!("no repeat set"),
    }
}

#[test]
fn play_song_at_candidates_ignore_outside_and_same() {
    let mut q = queue_of(&[10, 11, 12]);
    assert!(q.play_song_at_candidates(3, false).is_empty());
    assert_eq!(q.play_song_at_candidates(2, true), vec![2]);
    q.start_at(2);
    assert!(q.play_song_at_candidates(2, true).is_empty());
    assert_eq!(q.play_song_at_candidates(2, false), vec![2]);
}

#[test]
fn saved_start_index_clamps_to_the_last_song() {
    let q = queue_of(&[10, 11, 12]);
    assert_eq!(q.saved_start_index(1), Some(1));
    assert_eq!(q.saved_start_index(9), Some(2));
    assert_eq!(PlayQueue::new().saved_start_index(0), None);
}

#[test]
fn candidate_run_skips_outside_positions_and_collects_failures() {
    let q = queue_of(&[10, 11, 12]);
    let mut run = CandidateRun::new(vec![7, 1, 9, 2]);
    assert_eq!(run.next_candidate(q.len()), Some(1));
    run.record_failure(q.queue()[1].song.id);
    assert_eq!(run.next_candidate(q.len()), Some(2));
    let attempt = run.started();
    assert_eq!(attempt.failed_song_ids, vec![11]);
    assert!(attempt.should_emit_track_changed);
}

#[test]
fn candidate_run_exhausted_reports_no_change() {
    let mut run = CandidateRun::new(vec![0, 5]);
    assert_eq!(run.next_candidate(1), Some(0));
    run.record_failure(10);
    assert_eq!(run.next_candidate(1), None);
    let attempt = run.exhausted();
    assert_eq!(attempt.failed_song_ids, vec![10]);
    assert!(!attempt.should_emit_track_changed);
}
