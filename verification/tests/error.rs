use iuro_server::{internal_error, IuroError};

#[test]
fn each_error_in_the_words_for_the_user() {
    assert_eq!(IuroError::NoGameRunning.to_string(), "No game currently running");
    assert_eq!(IuroError::MustJoinRoom.to_string(), "Must join room first");
    assert_eq!(IuroError::JsonParsingFailed.to_string(), "Unable to parse message");
    assert_eq!(IuroError::NoRoom("den".to_string()).to_string(), "Room `den` not found");
    assert_eq!(IuroError::NoRoom(String::new()).to_string(), "Room `` not found");
    assert_eq!(IuroError::FullRoom("den".to_string()).to_string(), "Room `den` is full");
}

#[test]
fn the_detail_of_an_internal_fault_is_withheld() {
    assert_eq!(IuroError::AddrNotFound(42).to_string(), "Internal Server Error");
    assert_eq!(IuroError::MailBox.to_string(), "Internal Server Error");
    assert_eq!(internal_error(42usize), "Internal Server Error");
    assert_eq!(internal_error("anything"), "Internal Server Error");
}

#[test]
fn the_faults_of_the_server_are_told_from_those_of_the_user() {
    assert!(IuroError::AddrNotFound(1).is_internal());
    assert!(IuroError::MailBox.is_internal());
    assert!(!IuroError::NoGameRunning.is_internal());
    assert!(!IuroError::MustJoinRoom.is_internal());
    assert!(!IuroError::JsonParsingFailed.is_internal());
    assert!(!IuroError::NoRoom("den".to_string()).is_internal());
    assert!(!IuroError::FullRoom("den".to_string()).is_internal());
    assert_eq!(IuroError::FullRoom("den".to_string()).clone(), IuroError::FullRoom("den".to_string()));
}

#[test]
fn a_json_error_is_a_frame_that_does_not_decode() {
    let error = serde_json::from_str::<serde_json::Value>("{\"Join\": ").unwrap_err();
    assert_eq!(IuroError::from(error), IuroError::JsonParsingFailed);
}

#[test]
fn a_mailbox_error_is_an_internal_fault() {
    assert_eq!(IuroError::from(actix::MailboxError::Closed), IuroError::MailBox);
    assert_eq!(IuroError::from(actix::MailboxError::Timeout), IuroError::MailBox);
}
