use compute_core::event_hub::{Error, Event, EventTriggerHub, EventType, TriggerAction};
use compute_core::registry::{JobStatus, JobStore};

fn new_store() -> JobStore {
    JobStore::new(100, 10)
}

fn new_hub() -> EventTriggerHub {
    EventTriggerHub::new(1000, 100)
}

#[test]
fn submit_event_works() {
    let mut hub = new_hub();

    let payload = vec![1, 2, 3, 4];

    assert!(hub.submit_event(1, EventType::OnChain, payload.clone(), None, 1).is_ok());

    let event = hub.events(0).unwrap();
    assert_eq!(event.payload, payload);
    assert!(!event.processed);

    assert!(hub.deposited_events().contains(&Event::EventSubmitted {
        event_id: 0,
        event_type: EventType::OnChain,
    }));
}

#[test]
fn submit_cross_chain_event_works() {
    let mut hub = new_hub();

    let payload = vec![1, 2, 3];
    let source_para_id = 2000;

    assert!(hub
        .submit_event(1, EventType::CrossChain, payload, Some(source_para_id), 1)
        .is_ok());

    let event = hub.events(0).unwrap();
    assert_eq!(event.source_para_id, Some(source_para_id));

    assert!(hub.deposited_events().contains(&Event::CrossChainEventReceived {
        event_id: 0,
        source_para_id,
    }));
}

#[test]
fn register_trigger_works() {
    let mut hub = new_hub();

    // Submit event first
    assert!(hub.submit_event(1, EventType::OnChain, vec![1, 2, 3], None, 1).is_ok());

    // Register trigger
    assert!(hub.register_trigger(1, 0, TriggerAction::Custom, None, 1).is_ok());

    let trigger = hub.triggers(0).unwrap();
    assert_eq!(trigger.event_id, 0);
    assert!(trigger.active);

    assert!(hub.deposited_events().contains(&Event::TriggerRegistered {
        trigger_id: 0,
        event_id: 0,
        owner: 1,
    }));
}

#[test]
fn register_trigger_with_condition_works() {
    let mut hub = new_hub();

    assert!(hub.submit_event(1, EventType::OnChain, vec![1, 2, 3], None, 1).is_ok());

    let condition = vec![1u8; 64];

    assert!(hub
        .register_trigger(1, 0, TriggerAction::Custom, Some(condition.clone()), 1)
        .is_ok());

    let trigger = hub.triggers(0).unwrap();
    assert!(trigger.condition.is_some());
}

#[test]
fn process_event_works() {
    let mut hub = new_hub();
    let mut store = new_store();

    // Submit event
    assert!(hub.submit_event(1, EventType::OnChain, vec![1, 2, 3], None, 1).is_ok());

    // Register trigger
    assert!(hub.register_trigger(1, 0, TriggerAction::Custom, None, 1).is_ok());

    // Process event
    assert!(hub.process_event(1, 0, &mut store, 1).is_ok());

    let event = hub.events(0).unwrap();
    assert!(event.processed);

    assert!(hub.deposited_events().contains(&Event::EventProcessed { event_id: 0 }));
    assert!(hub.deposited_events().contains(&Event::TriggerActivated {
        trigger_id: 0,
        event_id: 0,
    }));
}

#[test]
fn process_already_processed_event_fails() {
    let mut hub = new_hub();
    let mut store = new_store();

    assert!(hub.submit_event(1, EventType::OnChain, vec![1, 2, 3], None, 1).is_ok());
    assert!(hub.process_event(1, 0, &mut store, 1).is_ok());

    // Try to process again
    assert_eq!(hub.process_event(1, 0, &mut store, 1), Err(Error::AlreadyProcessed));
}

#[test]
fn deactivate_trigger_works() {
    let mut hub = new_hub();

    assert!(hub.submit_event(1, EventType::OnChain, vec![1, 2, 3], None, 1).is_ok());
    assert!(hub.register_trigger(1, 0, TriggerAction::Custom, None, 1).is_ok());

    assert!(hub.deactivate_trigger(1, 0).is_ok());

    let trigger = hub.triggers(0).unwrap();
    assert!(!trigger.active);

    assert!(hub.deposited_events().contains(&Event::TriggerDeactivated { trigger_id: 0 }));
}

#[test]
fn deactivate_trigger_unauthorized_fails() {
    let mut hub = new_hub();

    assert!(hub.submit_event(1, EventType::OnChain, vec![1, 2, 3], None, 1).is_ok());
    assert!(hub.register_trigger(1, 0, TriggerAction::Custom, None, 1).is_ok());

    // Try to deactivate as different user
    assert_eq!(hub.deactivate_trigger(2, 0), Err(Error::NotAuthorized));
}

#[test]
fn trigger_starts_job() {
    let mut hub = new_hub();
    let mut store = new_store();

    // Create a job
    assert!(store.submit_job(1, vec![1, 2, 3], vec![], 100, 1).is_ok());

    // Submit event
    assert!(hub.submit_event(1, EventType::OnChain, vec![1, 2, 3], None, 1).is_ok());

    // Register trigger to start the job
    assert!(hub.register_trigger(1, 0, TriggerAction::StartJob(0), None, 1).is_ok());

    // Process event
    assert!(hub.process_event(1, 0, &mut store, 1).is_ok());

    // Check job status changed
    let job = store.jobs(0).unwrap();
    assert_eq!(job.status, JobStatus::InProgress);

    assert!(hub.deposited_events().contains(&Event::JobTriggered {
        job_id: 0,
        event_id: 0,
    }));
}

#[test]
fn get_pending_events_works() {
    let mut hub = new_hub();
    let mut store = new_store();

    // Submit multiple events
    for i in 0..3 {
        assert!(hub.submit_event(1, EventType::OnChain, vec![i], None, 1).is_ok());
    }

    let pending = hub.get_pending_events();
    assert_eq!(pending.len(), 3);
    assert_eq!(pending, vec![0, 1, 2]);

    // Process one
    assert!(hub.process_event(1, 0, &mut store, 1).is_ok());

    let pending = hub.get_pending_events();
    assert_eq!(pending.len(), 2);
    assert_eq!(pending, vec![1, 2]);
}

#[test]
fn event_statistics_tracked() {
    let mut hub = new_hub();
    let mut store = new_store();

    // Submit events
    assert!(hub.submit_event(1, EventType::OnChain, vec![1], None, 1).is_ok());
    assert!(hub.submit_event(1, EventType::CrossChain, vec![2], Some(2000), 1).is_ok());

    let stats = hub.get_statistics();
    assert_eq!(stats.total_events_submitted, 2);
    assert_eq!(stats.total_cross_chain_events, 1);
    assert_eq!(stats.total_events_processed, 0);

    // Process event
    assert!(hub.process_event(1, 0, &mut store, 1).is_ok());

    let stats = hub.get_statistics();
    assert_eq!(stats.total_events_processed, 1);
}

#[test]
fn on_initialize_processes_events() {
    let mut hub = new_hub();
    let mut store = new_store();

    // Submit events
    for i in 0..3 {
        assert!(hub.submit_event(1, EventType::OnChain, vec![i], None, 1).is_ok());
    }

    // One scheduling pass
    let _count = hub.auto_process_pending(&mut store, 5, 2);

    // Some events should be processed
    let stats = hub.get_statistics();
    assert!(stats.total_events_processed > 0);
}

#[test]
fn two_triggers_fire_once_each() {
    let mut hub = new_hub();
    let mut store = new_store();

    // A job to start, an event, and two triggers on it
    assert!(store.submit_job(1, vec![], vec![], 100, 1).is_ok());
    assert!(hub.submit_event(1, EventType::OnChain, vec![5], None, 1).is_ok());
    assert!(hub.register_trigger(1, 0, TriggerAction::StartJob(0), None, 1).is_ok());
    assert!(hub.register_trigger(1, 0, TriggerAction::Custom, None, 1).is_ok());

    assert!(hub.process_event(1, 0, &mut store, 1).is_ok());

    // Both fired exactly once
    assert_eq!(hub.get_statistics().total_triggers_activated, 2);
    let activations: Vec<&Event> = hub
        .deposited_events()
        .iter()
        .filter(|e| matches!(e, Event::TriggerActivated { .. }))
        .collect();
    assert_eq!(activations.len(), 2);

    // The event is processed and has left the pending queue
    assert!(hub.events(0).unwrap().processed);
    assert!(!hub.get_pending_events().contains(&0));

    // The start-job trigger moved the job
    assert_eq!(store.jobs(0).unwrap().status, JobStatus::InProgress);

    // A second pass fires nothing more
    assert_eq!(hub.process_event(1, 0, &mut store, 1), Err(Error::AlreadyProcessed));
    assert_eq!(hub.get_statistics().total_triggers_activated, 2);
}

#[test]
fn inactive_triggers_are_skipped() {
    let mut hub = new_hub();
    let mut store = new_store();

    assert!(store.submit_job(1, vec![], vec![], 100, 1).is_ok());
    assert!(hub.submit_event(1, EventType::OnChain, vec![], None, 1).is_ok());
    assert!(hub.register_trigger(1, 0, TriggerAction::StartJob(0), None, 1).is_ok());
    assert!(hub.deactivate_trigger(1, 0).is_ok());

    assert!(hub.process_event(1, 0, &mut store, 1).is_ok());

    // The deactivated trigger did not fire and the job did not move
    assert_eq!(hub.get_statistics().total_triggers_activated, 0);
    assert_eq!(store.jobs(0).unwrap().status, JobStatus::Pending);
}

#[test]
fn oversized_payload_rejected() {
    let mut hub = new_hub();
    assert_eq!(
        hub.submit_event(1, EventType::OnChain, vec![0u8; 513], None, 1),
        Err(Error::PayloadTooLarge)
    );
    assert!(hub.submit_event(1, EventType::OnChain, vec![0u8; 512], None, 1).is_ok());
}

#[test]
fn full_pending_queue_rejects_events() {
    let mut hub = EventTriggerHub::new(1, 100);

    assert!(hub.submit_event(1, EventType::OnChain, vec![], None, 1).is_ok());
    assert_eq!(
        hub.submit_event(1, EventType::OnChain, vec![], None, 1),
        Err(Error::MaxEventsReached)
    );
}

#[test]
fn trigger_caps_enforced() {
    let mut hub = EventTriggerHub::new(1000, 1);

    // Oversized condition
    assert_eq!(
        hub.register_trigger(1, 0, TriggerAction::Custom, Some(vec![0u8; 129]), 1),
        Err(Error::PayloadTooLarge)
    );
    // Per-account cap
    assert!(hub.register_trigger(1, 0, TriggerAction::Custom, None, 1).is_ok());
    assert_eq!(
        hub.register_trigger(1, 0, TriggerAction::Custom, None, 1),
        Err(Error::MaxTriggersReached)
    );
    // Another account still has room
    assert!(hub.register_trigger(2, 0, TriggerAction::Custom, None, 1).is_ok());
}

#[test]
fn missing_event_and_trigger_are_reported() {
    let mut hub = new_hub();
    let mut store = new_store();

    assert_eq!(hub.process_event(1, 9, &mut store, 1), Err(Error::EventNotFound));
    assert_eq!(hub.deactivate_trigger(1, 9), Err(Error::TriggerNotFound));
}

#[test]
fn auto_process_respects_batch_and_order() {
    let mut hub = new_hub();
    let mut store = new_store();

    for i in 0..4 {
        assert!(hub.submit_event(1, EventType::OnChain, vec![i], None, 1).is_ok());
    }

    // A pass of two processes the two oldest, in order
    assert_eq!(hub.auto_process_pending(&mut store, 2, 2), 2);
    assert!(hub.events(0).unwrap().processed);
    assert!(hub.events(1).unwrap().processed);
    assert!(!hub.events(2).unwrap().processed);
    assert_eq!(hub.get_pending_events(), vec![2, 3]);

    // The next pass takes the rest; a further one finds nothing
    assert_eq!(hub.auto_process_pending(&mut store, 5, 3), 2);
    assert_eq!(hub.auto_process_pending(&mut store, 5, 4), 0);
    assert_eq!(hub.get_statistics().total_events_processed, 4);
}

#[test]
fn account_triggers_listed() {
    let mut hub = new_hub();

    assert!(hub.register_trigger(7, 0, TriggerAction::Custom, None, 1).is_ok());
    assert!(hub.register_trigger(7, 1, TriggerAction::Custom, None, 1).is_ok());
    assert!(hub.register_trigger(8, 0, TriggerAction::Custom, None, 1).is_ok());

    assert_eq!(hub.get_account_triggers(7), vec![0, 1]);
    assert_eq!(hub.get_account_triggers(8), vec![2]);
    assert_eq!(hub.get_account_triggers(9), Vec::<u64>::new());
}
