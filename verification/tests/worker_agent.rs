use content::global_scope::{OwnedWorkers, WorkerMessageDelivery};
use content::worker_agent::{
    execute_owner_operation, tasks_for_expired_timers, CommandAction, ExpiredTimer, NetAction,
    NetCommand, OwnerOperation, OwnerOperationOutcome, ScriptCompletion, ScriptFetchStart,
    TimerRealm, WorkerAgentState, WorkerCommand, WorkerEvent, WorkerOwner, WorkerTask,
    WorkerTaskAction,
};

fn agent() -> WorkerAgentState<&'static str> {
    WorkerAgentState::new(7, WorkerOwner::Document(1))
}

#[test]
fn data_url_scripts_are_decoded_in_place() {
    match agent().start_script_fetch("data:,hello%20world") {
        Ok(ScriptFetchStart::Complete(resp)) => {
            assert_eq!(resp.body, b"hello world".to_vec());
            assert_eq!(resp.status, 200);
            assert_eq!(resp.content_type, "text/javascript");
            assert_eq!(resp.final_url, "data:,hello%20world");
        }
        _ => panic!("expected a decoded data: URL"),
    }
    match agent().start_script_fetch("data:text/javascript;base64,YWJj") {
        Ok(ScriptFetchStart::Complete(resp)) => assert_eq!(resp.body, b"abc".to_vec()),
        _ => panic!("expected a decoded base64 body"),
    }
}

#[test]
fn invalid_data_url_bodies_fail() {
    match agent().start_script_fetch("data:;base64,%%%") {
        Err(e) => assert!(e.starts_with("failed to read data: worker script body: ")),
        _ => panic!("expected a body failure"),
    }
}

#[test]
fn other_scripts_are_fetched_from_the_network() {
    match agent().start_script_fetch("https://example.com/w.js#x") {
        Ok(ScriptFetchStart::Network { url, method }) => {
            assert_eq!(url, "https://example.com/w.js#x");
            assert_eq!(method, "GET");
        }
        _ => panic!("expected a network fetch"),
    }
    match agent().start_script_fetch("no scheme") {
        Err(e) => assert_eq!(e, "invalid worker script URL: relative URL without a base"),
        _ => panic!("expected an invalid URL"),
    }
}

#[test]
fn script_completion_reports_to_the_owner() {
    let a = agent();
    assert_eq!(
        a.complete_worker_script_fetch("https://example.com/w.js", false).unwrap(),
        ScriptCompletion::Failed {
            report: WorkerEvent::OwnerOperation {
                owner: WorkerOwner::Document(1),
                operation: OwnerOperation::FireWorkerError { worker_id: 7 },
            },
        }
    );
    match a.complete_worker_script_fetch("https://example.com/w.js", true).unwrap() {
        ScriptCompletion::Evaluate { creation_url, enable_report, .. } => {
            assert_eq!(creation_url, "https://example.com/w.js");
            assert_eq!(
                enable_report,
                WorkerEvent::OwnerOperation {
                    owner: WorkerOwner::Document(1),
                    operation: OwnerOperation::EnableWorkerMessages { worker_id: 7 },
                }
            );
        }
        _ => panic!("expected evaluation"),
    }
    assert!(a.complete_worker_script_fetch("::", true).is_err());
    assert_eq!(
        a.fire_worker_error(),
        WorkerEvent::OwnerOperation {
            owner: WorkerOwner::Document(1),
            operation: OwnerOperation::FireWorkerError { worker_id: 7 },
        }
    );
}

#[test]
fn tasks_run_unless_closing() {
    let mut a = agent();
    let timer: WorkerTask<u8> = WorkerTask::RunWorkerTimer { worker_id: 7, timer_id: 2, timer_key: 3, nesting_level: 1 };
    assert!(matches!(
        a.run_task(timer),
        Ok(WorkerTaskAction::RunTimer { timer_id: 2, timer_key: 3, nesting_level: 1 })
    ));
    let stray: WorkerTask<u8> = WorkerTask::RunWorkerTimer { worker_id: 8, timer_id: 2, timer_key: 3, nesting_level: 1 };
    match a.run_task(stray) {
        Err(e) => assert_eq!(e, "worker event loop received a timer for worker 8"),
        _ => panic!("expected an error"),
    }
    let inbound: WorkerTask<u8> = WorkerTask::RunWorkerInboundMessage { worker_id: 7, payload: 9 };
    assert!(matches!(a.run_task(inbound), Ok(WorkerTaskAction::FireInboundMessage { payload: 9 })));
    let document: WorkerTask<u8> = WorkerTask::DocumentTask;
    assert!(a.run_task(document).is_err());
    assert!(a.accepts_messages());
    assert_eq!(a.handle_worker_command(WorkerCommand::Terminate), CommandAction::Nothing);
    assert!(a.closing_flag());
    assert!(!a.accepts_messages());
    let inbound: WorkerTask<u8> = WorkerTask::RunWorkerInboundMessage { worker_id: 7, payload: 9 };
    assert!(matches!(a.run_task(inbound), Ok(WorkerTaskAction::Discard)));
    let port: WorkerTask<u8> = WorkerTask::RunPortMessage { port: 4 };
    assert!(matches!(a.run_task(port), Ok(WorkerTaskAction::RunPortMessageTask { port: 4 })));
}

#[test]
fn nested_worker_channels() {
    let mut a = agent();
    let op = OwnerOperation::DiscardWorkerMessages { worker_id: 3 };
    assert_eq!(a.handle_worker_command(WorkerCommand::OwnerOperation(op)), CommandAction::ExecuteOwnerOperation(op));
    a.handle_worker_command(WorkerCommand::AddNestedWorkerChannel { worker_id: 3, receiver: "r1" });
    a.handle_worker_command(WorkerCommand::AddNestedWorkerChannel { worker_id: 3, receiver: "r2" });
    a.handle_worker_command(WorkerCommand::AddNestedWorkerChannel { worker_id: 4, receiver: "r3" });
    assert_eq!(a.nested_workers.as_slice(), &[(3, "r2"), (4, "r3")][..]);
    a.handle_worker_command(WorkerCommand::RemoveNestedWorkerChannel { worker_id: 3 });
    assert_eq!(a.nested_workers.as_slice(), &[(4, "r3")][..]);
}

#[test]
fn net_commands_complete_the_pending_fetch_only() {
    let mut a = agent();
    a.script_fetch_requested(55);
    assert!(matches!(a.handle_net_command(NetCommand::CompleteDocumentFetch { handler_id: 54, response: 1u8 }), NetAction::Ignore));
    assert!(matches!(a.handle_net_command(NetCommand::<u8>::Other), NetAction::Unexpected));
    assert!(matches!(
        a.handle_net_command(NetCommand::CompleteDocumentFetch { handler_id: 55, response: 2u8 }),
        NetAction::CompleteScriptFetch(2)
    ));
    assert_eq!(a.pending_script_fetch, None);
    a.script_fetch_requested(56);
    assert!(matches!(a.handle_net_command(NetCommand::<u8>::FailDocumentFetch { handler_id: 56 }), NetAction::FailScriptFetch));
}

#[test]
fn expired_timers_become_worker_tasks() {
    let expired = vec![
        ExpiredTimer { realm: TimerRealm::Worker(7), timer_id: 1, timer_key: 10, nesting_level: 0 },
        ExpiredTimer { realm: TimerRealm::Document(99), timer_id: 2, timer_key: 20, nesting_level: 0 },
        ExpiredTimer { realm: TimerRealm::Worker(7), timer_id: 3, timer_key: 30, nesting_level: 2 },
    ];
    let (tasks, misplaced) = tasks_for_expired_timers::<u8>(&expired);
    assert_eq!(misplaced, vec![99]);
    assert_eq!(tasks.len(), 2);
    assert!(matches!(tasks[1], WorkerTask::RunWorkerTimer { worker_id: 7, timer_id: 3, timer_key: 30, nesting_level: 2 }));
}

#[test]
fn owner_operations_on_owned_workers() {
    let mut workers: OwnedWorkers<&str, u8> = OwnedWorkers::new();
    workers.register_owned_worker(3, "worker 3");
    assert!(matches!(workers.handle_worker_posted_message(3, 1), WorkerMessageDelivery::Queued));
    assert!(matches!(workers.handle_worker_posted_message(3, 2), WorkerMessageDelivery::Queued));
    assert!(matches!(workers.handle_worker_posted_message(9, 2), WorkerMessageDelivery::Dropped));
    match execute_owner_operation(&mut workers, OwnerOperation::EnableWorkerMessages { worker_id: 3 }) {
        OwnerOperationOutcome::Released(pending) => assert_eq!(pending, vec![1, 2]),
        _ => panic!("expected the waiting messages"),
    }
    assert!(matches!(workers.handle_worker_posted_message(3, 5), WorkerMessageDelivery::Deliver { payload: 5 }));
    assert!(matches!(
        execute_owner_operation(&mut workers, OwnerOperation::FireWorkerError { worker_id: 3 }),
        OwnerOperationOutcome::FireError { worker_id: 3 }
    ));
    assert!(matches!(
        execute_owner_operation(&mut workers, OwnerOperation::DiscardWorkerMessages { worker_id: 3 }),
        OwnerOperationOutcome::Discarded
    ));
    assert!(matches!(
        execute_owner_operation(&mut workers, OwnerOperation::FireWorkerError { worker_id: 3 }),
        OwnerOperationOutcome::NoTarget
    ));
    assert!(workers.owned_worker_event_target(3).is_none());
}
