use plug_layer::EventQueue;

#[test]
fn a_new_queue_is_empty() {
    let queue: EventQueue<u64> = EventQueue::new();

    assert!(queue.slice().is_empty());
    assert_eq!(queue.len(), 0);
    assert_eq!(queue.get(0), None);
}

#[test]
fn a_default_queue_is_empty() {
    let queue: EventQueue<u64> = EventQueue::default();

    assert!(queue.slice().is_empty());
}

#[test]
fn push_keeps_the_order_of_insertion() {
    let mut queue: EventQueue<u64> = EventQueue::new();

    queue.push(3u64);
    queue.push(1u64);
    queue.push(2u64);

    assert_eq!(queue.slice(), &[3, 1, 2]);
    assert_eq!(queue.len(), 3);
}

#[test]
fn push_converts_what_it_is_given() {
    let mut queue: EventQueue<u64> = EventQueue::new();

    queue.push(7u8);
    queue.push(300u16);
    queue.push(9u64);

    assert_eq!(queue.slice(), &[7, 300, 9]);
}

#[test]
fn push_takes_a_string_slice_for_a_string() {
    let mut queue: EventQueue<String> = EventQueue::new();

    queue.push("first");
    queue.push(String::from("second"));

    assert_eq!(queue.slice(), &[String::from("first"), String::from("second")]);
}

#[test]
fn get_returns_the_event_at_a_position() {
    let mut queue: EventQueue<u64> = EventQueue::new();
    queue.push(10u64);
    queue.push(20u64);

    assert_eq!(queue.get(0), Some(&10));
    assert_eq!(queue.get(1), Some(&20));
    assert_eq!(queue.get(2), None);
}

#[test]
fn append_moves_the_events_and_empties_the_other_queue() {
    let mut queue: EventQueue<u64> = EventQueue::new();
    queue.push(1u64);
    let mut other: EventQueue<u64> = EventQueue::new();
    other.push(2u64);
    other.push(3u64);

    queue.append(&mut other);

    assert_eq!(queue.slice(), &[1, 2, 3]);
    assert!(other.slice().is_empty());
}

#[test]
fn append_of_an_empty_queue_changes_nothing() {
    let mut queue: EventQueue<u64> = EventQueue::new();
    queue.push(1u64);
    let mut other: EventQueue<u64> = EventQueue::new();

    queue.append(&mut other);

    assert_eq!(queue.slice(), &[1]);
}

#[test]
fn a_cloned_queue_holds_the_same_events_and_is_its_own() {
    let mut queue: EventQueue<u64> = EventQueue::new();
    queue.push(1u64);
    queue.push(2u64);

    let mut twin = queue.clone();
    twin.push(3u64);

    assert_eq!(queue.slice(), &[1, 2]);
    assert_eq!(twin.slice(), &[1, 2, 3]);
}
