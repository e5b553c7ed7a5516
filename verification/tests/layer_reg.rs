use plug_layer::EventQueue;
use plug_layer::LayerDispatch;
use plug_layer::LayerReg;

struct SimpleLayer;

impl LayerDispatch<()> for SimpleLayer {}

impl SimpleLayer {
    fn echo(&self, num: usize) -> usize {
        num
    }
}

#[test]
fn layer_reg_simple_layer() {
    let mut reg = LayerReg::new();
    reg.insert(SimpleLayer);

    assert_eq!(
        reg.get_unchecked::<SimpleLayer>().read().unwrap().echo(39),
        39
    )
}

#[derive(Clone, Debug, PartialEq, Eq)]
enum LayerEvent {
    EchoIn(usize),
    Response(EventResponse),
}

#[derive(Clone, Debug, PartialEq, Eq)]
enum EventResponse {
    EchoOut(usize),
    EchoReceived(usize),
}

struct DispatchLayer;

impl LayerDispatch<LayerEvent> for DispatchLayer {
    fn dispatch(&mut self, event: &LayerEvent, queue: &mut EventQueue<LayerEvent>) {
        match event {
            LayerEvent::EchoIn(num) => {
                queue.push(LayerEvent::Response(EventResponse::EchoOut(*num)));
            }

            LayerEvent::Response(EventResponse::EchoOut(num)) => {
                queue.push(LayerEvent::Response(EventResponse::EchoReceived(*num)));
            }

            _ => (),
        }
    }
}

#[test]
fn layer_reg_simple_dispatch_layer() {
    let mut reg = LayerReg::new();
    reg.insert(DispatchLayer);

    let echo = reg
        .dispatch(LayerEvent::EchoIn(39))
        .unwrap()
        .slice()
        .contains(&LayerEvent::Response(EventResponse::EchoOut(39)));

    assert!(echo)
}

#[test]
fn layer_reg_redispatch_dispatch_layer() {
    let mut reg = LayerReg::new();
    reg.insert(DispatchLayer);

    let echo = reg
        .dispatch(LayerEvent::EchoIn(39))
        .unwrap()
        .dispatch(&mut reg)
        .unwrap()
        .slice()
        .contains(&LayerEvent::Response(EventResponse::EchoReceived(39)));

    assert!(echo);
}

#[test]
fn dispatch_without_layers_returns_an_empty_queue() {
    let mut reg: LayerReg<LayerEvent> = LayerReg::new();

    let queue = reg.dispatch(LayerEvent::EchoIn(39)).unwrap();

    assert!(queue.slice().is_empty());
}

#[test]
fn dispatch_to_one_echo_layer_returns_exactly_the_echo() {
    let mut reg = LayerReg::new();
    reg.insert(DispatchLayer);

    let queue = reg.dispatch(LayerEvent::EchoIn(7)).unwrap();

    assert_eq!(
        queue.slice(),
        &[LayerEvent::Response(EventResponse::EchoOut(7))]
    );
}

#[test]
fn dispatch_does_not_cascade() {
    let mut reg = LayerReg::new();
    reg.insert(DispatchLayer);

    let queue = reg.dispatch(LayerEvent::EchoIn(39)).unwrap();

    assert!(!queue
        .slice()
        .contains(&LayerEvent::Response(EventResponse::EchoReceived(39))));
}

#[test]
fn cascade_from_echo_in_returns_echo_out_then_echo_received() {
    let mut reg = LayerReg::new();
    reg.insert(DispatchLayer);
    let mut initial: EventQueue<LayerEvent> = EventQueue::new();
    initial.push(LayerEvent::EchoIn(39));

    let answers = initial.dispatch(&mut reg).unwrap();

    assert_eq!(
        answers.slice(),
        &[
            LayerEvent::Response(EventResponse::EchoOut(39)),
            LayerEvent::Response(EventResponse::EchoReceived(39)),
        ]
    );
}

#[test]
fn redispatch_does_not_return_the_events_it_started_from() {
    let mut reg = LayerReg::new();
    reg.insert(DispatchLayer);

    let answers = reg
        .dispatch(LayerEvent::EchoIn(39))
        .unwrap()
        .dispatch(&mut reg)
        .unwrap();

    assert_eq!(
        answers.slice(),
        &[LayerEvent::Response(EventResponse::EchoReceived(39))]
    );
}

struct Counter {
    value: usize,
}

impl LayerDispatch<()> for Counter {}

struct Other;

impl LayerDispatch<()> for Other {}

#[test]
fn insert_then_get_returns_a_handle_to_the_inserted_value() {
    let mut reg = LayerReg::new();

    let rejected = reg.insert(Counter { value: 7 });

    assert!(rejected.is_none());
    let handle = reg.get::<Counter>().unwrap();
    assert_eq!(handle.read().unwrap().value, 7);
}

#[test]
fn handles_from_two_lookups_share_one_cell() {
    let mut reg = LayerReg::new();
    reg.insert(Counter { value: 7 });

    let first = reg.get::<Counter>().unwrap();
    first.write().unwrap().value = 9;
    let second = reg.get::<Counter>().unwrap();

    assert_eq!(second.read().unwrap().value, 9);
    assert!(std::sync::Arc::ptr_eq(&first, &second));
}

#[test]
fn second_insert_of_a_type_comes_back_and_the_first_stays() {
    let mut reg = LayerReg::new();
    reg.insert(Counter { value: 1 });

    let rejected = reg.insert(Counter { value: 2 });

    assert_eq!(rejected.map(|counter| counter.value), Some(2));
    assert_eq!(reg.get::<Counter>().unwrap().read().unwrap().value, 1);
}

#[test]
fn get_of_a_type_that_was_not_inserted_is_none() {
    let mut reg = LayerReg::new();
    reg.insert(Counter { value: 1 });

    assert!(reg.get::<Other>().is_none());
    assert!(reg.get::<SimpleLayer>().is_none());
}

#[test]
fn layers_of_two_types_are_found_by_their_own_type() {
    let mut reg = LayerReg::new();
    reg.insert(Counter { value: 5 });
    reg.insert(SimpleLayer);

    assert_eq!(reg.get::<Counter>().unwrap().read().unwrap().value, 5);
    assert_eq!(reg.get::<SimpleLayer>().unwrap().read().unwrap().echo(3), 3);
    assert!(reg.get::<Other>().is_none());
}

#[test]
fn remove_of_a_type_that_was_not_inserted_is_none_and_changes_nothing() {
    let mut reg = LayerReg::new();
    reg.insert(Counter { value: 4 });

    let removed = reg.remove::<Other>();

    assert!(removed.is_none());
    assert_eq!(reg.get::<Counter>().unwrap().read().unwrap().value, 4);
}

#[test]
fn remove_on_an_empty_registry_is_none() {
    let mut reg: LayerReg<()> = LayerReg::new();

    assert!(reg.remove::<Counter>().is_none());
    assert!(reg.get::<Counter>().is_none());
}

#[test]
fn remove_returns_the_handle_and_the_type_is_gone() {
    let mut reg = LayerReg::new();
    reg.insert(Counter { value: 4 });
    reg.insert(SimpleLayer);
    let before = reg.get::<Counter>().unwrap();

    let removed = reg.remove::<Counter>().unwrap();

    assert!(std::sync::Arc::ptr_eq(&before, &removed));
    assert_eq!(removed.read().unwrap().value, 4);
    assert!(reg.get::<Counter>().is_none());
    assert!(reg.get::<SimpleLayer>().is_some());
    assert!(reg.remove::<Counter>().is_none());
}

#[test]
fn a_removed_type_can_be_inserted_again() {
    let mut reg = LayerReg::new();
    reg.insert(Counter { value: 1 });
    reg.remove::<Counter>();

    let rejected = reg.insert(Counter { value: 2 });

    assert!(rejected.is_none());
    assert_eq!(reg.get::<Counter>().unwrap().read().unwrap().value, 2);
}

#[test]
fn default_registry_is_empty() {
    let mut reg: LayerReg<LayerEvent> = LayerReg::default();

    assert!(reg.get::<DispatchLayer>().is_none());
    assert!(reg.dispatch(LayerEvent::EchoIn(1)).unwrap().slice().is_empty());
}

struct Tagger {
    tag: usize,
    seen: usize,
}

impl LayerDispatch<usize> for Tagger {
    fn dispatch(&mut self, _event: &usize, queue: &mut EventQueue<usize>) {
        self.seen += 1;
        queue.push(self.tag);
    }
}

struct SecondTagger;

impl LayerDispatch<usize> for SecondTagger {
    fn dispatch(&mut self, event: &usize, queue: &mut EventQueue<usize>) {
        queue.push(*event + 100);
        queue.push(*event + 200);
    }
}

#[test]
fn dispatch_reaches_every_layer_in_the_order_of_insertion() {
    let mut reg = LayerReg::new();
    reg.insert(Tagger { tag: 1, seen: 0 });
    reg.insert(SecondTagger);

    let queue = reg.dispatch(5).unwrap();

    assert_eq!(queue.slice(), &[1, 105, 205]);
    assert_eq!(reg.get::<Tagger>().unwrap().read().unwrap().seen, 1);
}

#[test]
fn fan_out_takes_the_event_by_reference() {
    let mut reg = LayerReg::new();
    reg.insert(SecondTagger);
    reg.insert(Tagger { tag: 1, seen: 0 });

    let queue = reg.fan_out(&5).unwrap();

    assert_eq!(queue.slice(), &[105, 205, 1]);
}

#[test]
fn dispatch_changes_the_layer_that_a_lookup_returns() {
    let mut reg = LayerReg::new();
    reg.insert(Tagger { tag: 1, seen: 0 });
    let handle = reg.get::<Tagger>().unwrap();

    reg.dispatch(0).unwrap();
    reg.dispatch(0).unwrap();

    assert_eq!(handle.read().unwrap().seen, 2);
}

fn shareable<T: Send + Sync>() -> bool {
    true
}

#[test]
fn registries_and_handles_can_be_shared_between_threads() {
    assert!(shareable::<LayerReg<LayerEvent>>());
    assert!(shareable::<plug_layer::AnyLayer<LayerEvent>>());
    assert!(shareable::<plug_layer::Layer<Counter>>());
    assert!(shareable::<EventQueue<LayerEvent>>());
}

#[test]
fn a_registry_behind_a_lock_serves_many_owners() {
    let shared = std::sync::Arc::new(std::sync::RwLock::new(LayerReg::new()));
    let other = shared.clone();

    shared.write().unwrap().insert(SimpleLayer);

    assert_eq!(
        other
            .read()
            .unwrap()
            .get_unchecked::<SimpleLayer>()
            .read()
            .unwrap()
            .echo(39),
        39
    );
}

#[test]
fn a_failed_recovery_says_that_the_cast_has_failed() {
    let erased: plug_layer::AnyLayer<()> = plug_layer::AnyLayer::new(SimpleLayer);

    let recovered = plug_layer::Layer::<Counter>::try_from(&erased);

    assert_eq!(
        recovered.err().map(|error| error.to_string()),
        Some(String::from("Layer cast failed"))
    );
}

#[test]
fn dispatch_with_sound_locks_is_ok_and_a_handle_is_not_poisoned() {
    let mut reg = LayerReg::new();
    reg.insert(Tagger { tag: 1, seen: 0 });
    let handle = reg.get::<Tagger>().unwrap();

    let outcome = reg.dispatch(5);

    assert!(outcome.is_ok());
    assert!(!handle.is_poisoned());
    assert_eq!(outcome.unwrap().slice(), &[1]);
}

#[test]
fn an_erased_layer_reports_success_and_appends_to_the_queue() {
    let mut erased: plug_layer::AnyLayer<usize> = plug_layer::AnyLayer::new(SecondTagger);
    let mut queue: EventQueue<usize> = EventQueue::new();
    queue.push(9usize);

    let outcome = erased.dispatch(&1, &mut queue);

    assert_eq!(outcome, Ok(()));
    assert_eq!(queue.slice(), &[9, 101, 201]);
}
