use rustbits::echo::{after_read, EchoAction, ReadOutcome, BUFFER_SIZE};

#[test]
fn read_outcomes() {
    assert_eq!(after_read(ReadOutcome::Bytes(0)), EchoAction::Disconnect);
    assert_eq!(after_read(ReadOutcome::Bytes(23)), EchoAction::EchoBack(23));
    assert_eq!(after_read(ReadOutcome::Bytes(BUFFER_SIZE)), EchoAction::EchoBack(512));
    assert_eq!(after_read(ReadOutcome::Failed), EchoAction::Abort);
}
