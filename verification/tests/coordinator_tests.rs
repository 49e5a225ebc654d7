use note_index::coordinator::Coordinator;
use note_index::task::TaskState;
use note_index::EMBEDDING_DIM;

fn ids(names: &[&str]) -> Vec<String> {
    names.iter().map(|n| n.to_string()).collect()
}

#[test]
fn collection_created_at_most_once_across_many_events() {
    // Five files change before the collection exists; only the first
    // decision asks for creation.
    let mut c = Coordinator::new(EMBEDDING_DIM, 4);
    let mut creations: usize = 0;
    let mut exists = false;
    for _ in 0..5 {
        if c.collection_decision(exists) {
            creations += 1;
            exists = true;
        }
    }
    assert_eq!(creations, 1);
    assert!(c.collection_ready());
}

#[test]
fn no_creation_when_collection_already_exists() {
    let mut c = Coordinator::new(EMBEDDING_DIM, 4);
    assert!(!c.collection_decision(true));
    assert!(c.collection_ready());
    assert!(!c.collection_decision(false));
}

#[test]
fn removal_returns_exactly_the_tracked_ids() {
    let mut c = Coordinator::new(EMBEDDING_DIM, 4);
    let path = String::from("/notes/a.json");
    let other = String::from("/notes/b.json");
    let stale = c.record_upsert(&path, ids(&["/notes/a.json-0", "/notes/a.json-1"]));
    assert!(stale.is_empty());
    c.record_upsert(&other, ids(&["/notes/b.json-0"]));
    let removed = c.handle_removed(&path);
    assert_eq!(removed, ids(&["/notes/a.json-0", "/notes/a.json-1"]));
    assert!(c.tracked_ids(&path).is_none());
    // The other path's tracking is untouched.
    assert_eq!(c.tracked_ids(&other).unwrap(), ids(&["/notes/b.json-0"]));
}

#[test]
fn removal_of_untracked_path_deletes_nothing() {
    let mut c = Coordinator::new(EMBEDDING_DIM, 4);
    let path = String::from("/notes/never-seen.json");
    let removed = c.handle_removed(&path);
    assert!(removed.is_empty());
}

#[test]
fn reindexing_a_shrunk_file_retires_the_extra_chunks() {
    let mut c = Coordinator::new(EMBEDDING_DIM, 4);
    let path = String::from("/notes/a.json");
    let stale = c.record_upsert(
        &path,
        ids(&["/notes/a.json-0", "/notes/a.json-1", "/notes/a.json-2"]),
    );
    assert!(stale.is_empty());
    let stale = c.record_upsert(&path, ids(&["/notes/a.json-0"]));
    assert_eq!(stale, ids(&["/notes/a.json-1", "/notes/a.json-2"]));
    assert_eq!(c.tracked_ids(&path).unwrap(), ids(&["/notes/a.json-0"]));
}

#[test]
fn reindexing_with_same_ids_retires_nothing() {
    let mut c = Coordinator::new(EMBEDDING_DIM, 4);
    let path = String::from("/notes/a.json");
    c.record_upsert(&path, ids(&["/notes/a.json-0", "/notes/a.json-1"]));
    let stale = c.record_upsert(&path, ids(&["/notes/a.json-0", "/notes/a.json-1"]));
    assert!(stale.is_empty());
}

#[test]
fn worker_pool_bounds_concurrent_tasks() {
    let mut c = Coordinator::new(EMBEDDING_DIM, 2);
    assert!(c.try_begin_task());
    assert!(c.try_begin_task());
    assert!(!c.try_begin_task());
    assert_eq!(c.in_flight(), 2);
    c.finish_task();
    assert_eq!(c.in_flight(), 1);
    assert!(c.try_begin_task());
    assert!(!c.try_begin_task());
    c.finish_task();
    c.finish_task();
    assert_eq!(c.in_flight(), 0);
}

#[test]
fn task_advances_through_each_stage_once() {
    let s = TaskState::Pending;
    let s = s.advance(true);
    assert_eq!(s, TaskState::Reading);
    let s = s.advance(true);
    assert_eq!(s, TaskState::Embedding);
    let s = s.advance(true);
    assert_eq!(s, TaskState::Upserting);
    let s = s.advance(true);
    assert_eq!(s, TaskState::Done);
    assert!(s.is_terminal());
}

#[test]
fn task_failure_is_terminal_and_isolated() {
    let s = TaskState::Pending.advance(true).advance(false);
    assert_eq!(s, TaskState::Failed);
    assert!(s.is_terminal());
    assert!(!TaskState::Upserting.is_terminal());
}
