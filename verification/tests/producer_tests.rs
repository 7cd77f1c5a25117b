use sipstream::producer::Producer;
use sipstream::producer::ProducerAction;
use sipstream::producer::ReadEvent;

#[test]
fn sequence_numbers_are_gapless_from_zero() {
    let mut p = Producer::new();
    assert_eq!(p.published_count(), 0);
    for want in 0u64..5 {
        let a = p.on_read(ReadEvent::Filled);
        assert_eq!(a, ProducerAction::Publish(want));
    }
    assert_eq!(p.published_count(), 5);
}

#[test]
fn end_of_input_stops_without_publishing() {
    let mut p = Producer::new();
    p.on_read(ReadEvent::Filled);
    let a = p.on_read(ReadEvent::End);
    assert_eq!(a, ProducerAction::Stop);
    assert_eq!(p.published_count(), 1);
    assert_eq!(p.exit_code(), 0);
}

#[test]
fn a_read_failure_stops_and_sets_the_exit_status() {
    let mut p = Producer::new();
    p.on_read(ReadEvent::Filled);
    p.on_read(ReadEvent::Filled);
    let a = p.on_read(ReadEvent::Failed);
    assert_eq!(a, ProducerAction::Stop);
    assert_eq!(p.published_count(), 2);
    assert_eq!(p.exit_code(), 1);
}
