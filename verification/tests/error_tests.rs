use note_index::errors::IndexError;

#[test]
fn connection_level_failures_are_transient() {
    assert!(IndexError::EmbeddingUnavailable.is_transient());
    assert!(IndexError::StoreUnavailable.is_transient());
}

#[test]
fn permanent_failures_are_not_transient() {
    assert!(!IndexError::WatchFailed.is_transient());
    assert!(!IndexError::QueueOverflow.is_transient());
    assert!(!IndexError::ReadFailed.is_transient());
    assert!(!IndexError::EmbeddingMalformedResponse.is_transient());
    assert!(!IndexError::StoreRejected.is_transient());
}

#[test]
fn only_a_watch_failure_ends_the_pipeline() {
    assert!(IndexError::WatchFailed.is_fatal());
    assert!(!IndexError::QueueOverflow.is_fatal());
    assert!(!IndexError::ReadFailed.is_fatal());
    assert!(!IndexError::EmbeddingUnavailable.is_fatal());
    assert!(!IndexError::EmbeddingMalformedResponse.is_fatal());
    assert!(!IndexError::StoreUnavailable.is_fatal());
    assert!(!IndexError::StoreRejected.is_fatal());
}
