use content::abort::{AbortAlgorithm, AbortSignals};
use content::event::{
    activation_target_index, begin_invoke, build_path_for_target, dispatch_steps, flatten,
    flatten_more, AddEventListenerOptions, BooleanOrAddEventListenerOptions, Event, EventTarget,
    InnerInvoke, ListenerCall, ListenerPhase,
};

#[test]
fn a_listener_is_registered_once() {
    let mut target = EventTarget::new();
    let first = target.add_event_listener("click", Some(9), false, false, None, None, false);
    assert!(first.is_some());
    let again = target.add_event_listener("click", Some(9), false, true, Some(true), None, false);
    assert_eq!(again, None);
    assert_eq!(target.listeners_snapshot().len(), 1);
    let capture = target.add_event_listener("click", Some(9), true, false, None, None, false);
    assert!(capture.is_some());
    assert_ne!(capture, first);
    assert_eq!(target.listeners_snapshot().len(), 2);
}

#[test]
fn removing_an_added_listener_restores_the_list() {
    let mut target = EventTarget::new();
    target.add_event_listener("click", Some(1), false, false, None, None, false);
    target.add_event_listener("keydown", Some(2), true, false, None, None, false);
    let before: Vec<u64> = target.listeners_snapshot().iter().map(|l| l.id).collect();
    target.add_event_listener("click", Some(3), false, true, Some(true), None, false);
    assert_eq!(target.listeners_snapshot().len(), 3);
    target.remove_event_listener_entry("click", 3, false);
    let after: Vec<u64> = target.listeners_snapshot().iter().map(|l| l.id).collect();
    assert_eq!(after, before);
    target.remove_event_listener_entry("click", 1, true);
    assert_eq!(target.listeners_snapshot().len(), 2);
}

#[test]
fn listeners_without_callback_or_with_aborted_signal_are_not_added() {
    let mut target = EventTarget::new();
    assert_eq!(target.add_event_listener("x", None, false, false, None, None, false), None);
    assert_eq!(target.add_event_listener("x", Some(1), false, false, None, Some(4), true), None);
    assert!(target.listeners_snapshot().is_empty());
}

#[test]
fn removing_listeners() {
    let mut target = EventTarget::new();
    let a = target.add_event_listener("load", Some(1), false, false, None, None, false).unwrap();
    let b = target.add_event_listener("load", Some(2), false, false, None, None, false).unwrap();
    target.remove_event_listener_entry("load", 1, false);
    assert!(!target.listener_is_active(a));
    assert!(target.listener_is_active(b));
    target.remove_event_listener_by_id(b);
    assert!(target.listeners_snapshot().is_empty());
}

#[test]
fn event_handlers_and_clearing() {
    let mut target = EventTarget::new();
    assert_eq!(target.event_handler_value("message"), None);
    target.set_event_handler_value("message", Some(5));
    assert_eq!(target.event_handler_value("message"), Some(5));
    target.add_event_listener("message", Some(6), false, false, None, None, false);
    assert_eq!(target.clear_all_listeners_and_handlers(), 2);
    assert_eq!(target.event_handler_value("message"), None);
}

#[test]
fn option_flattening() {
    assert!(flatten(&BooleanOrAddEventListenerOptions::Boolean(true)));
    let dict = AddEventListenerOptions { capture: false, once: true, passive: Some(true), signal: Some(3) };
    assert!(!flatten(&BooleanOrAddEventListenerOptions::Dict(dict)));
    let more = flatten_more(BooleanOrAddEventListenerOptions::Boolean(true));
    assert!(more.capture && !more.once && more.passive.is_none() && more.signal.is_none());
    let kept = flatten_more(BooleanOrAddEventListenerOptions::Dict(dict));
    assert!(kept.once && kept.signal == Some(3));
}

#[test]
fn dispatch_visits_capture_then_bubble() {
    let path = build_path_for_target(30, &[20, 10]);
    assert_eq!(path.len(), 3);
    assert_eq!(path[0].shadow_adjusted_target, Some(30));
    assert_eq!(path[2].invocation_target, 10);
    let steps = dispatch_steps(&path, true);
    let order: Vec<(usize, ListenerPhase, u16)> =
        steps.iter().map(|s| (s.index, s.phase, s.event_phase)).collect();
    assert_eq!(
        order,
        vec![
            (2, ListenerPhase::Capturing, 1),
            (1, ListenerPhase::Capturing, 1),
            (0, ListenerPhase::Capturing, 2),
            (0, ListenerPhase::Bubbling, 2),
            (1, ListenerPhase::Bubbling, 3),
            (2, ListenerPhase::Bubbling, 3),
        ]
    );
    let non_bubbling = dispatch_steps(&path, false);
    assert_eq!(non_bubbling.len(), 4);
}

#[test]
fn event_flags_through_dispatch() {
    let mut event = Event::new(String::from("click"), true, true, false, true);
    assert_eq!(event.type_value(), "click");
    assert!(event.is_trusted_value());
    assert!(event.prepare_script_dispatch());
    assert!(!event.is_trusted_value());
    event.begin_dispatch();
    assert!(!event.prepare_script_dispatch());
    let path = build_path_for_target(30, &[20]);
    let steps = dispatch_steps(&path, true);
    assert!(begin_invoke(&mut event, &path, steps[0]));
    assert_eq!(event.current_target_value(), Some(20));
    assert_eq!(event.target_value(), Some(30));
    assert_eq!(event.event_phase_value(), 1);
    event.prevent_default();
    assert!(event.default_prevented());
    event.stop_propagation();
    assert!(event.cancel_bubble());
    assert!(!begin_invoke(&mut event, &path, steps[1]));
    assert!(!event.finish_dispatch());
    assert_eq!(event.event_phase_value(), 0);
    assert_eq!(event.current_target_value(), None);
    assert!(!event.cancel_bubble());
}

#[test]
fn prevent_default_needs_a_cancelable_event() {
    let mut event = Event::new(String::from("load"), false, false, false, false);
    event.prevent_default();
    assert!(!event.default_prevented());
}

#[test]
fn inner_invoke_runs_matching_listeners_and_removes_once() {
    let mut target = EventTarget::new();
    target.add_event_listener("click", Some(1), false, true, None, None, false);
    target.add_event_listener("click", Some(2), true, false, None, None, false);
    target.add_event_listener("click", Some(3), false, false, None, None, false);
    target.add_event_listener("keydown", Some(4), false, false, None, None, false);
    let listeners = target.listeners_snapshot();
    let mut event = Event::new(String::from("click"), true, false, false, false);
    let mut invoke = InnerInvoke::new();
    let mut called = Vec::new();
    loop {
        match invoke.next_listener(&listeners, &mut event, ListenerPhase::Bubbling, &mut target) {
            ListenerCall::Call { callback } => {
                called.push(callback.unwrap());
                if !invoke.after_listener(&mut event) {
                    break;
                }
            }
            ListenerCall::Done => break,
        }
    }
    assert_eq!(called, vec![1, 3]);
    assert!(invoke.found());
    assert_eq!(target.listeners_snapshot().len(), 3);
}

#[test]
fn stop_immediate_propagation_ends_inner_invoke() {
    let mut target = EventTarget::new();
    target.add_event_listener("t", Some(1), false, false, None, None, false);
    target.add_event_listener("t", Some(2), false, false, None, None, false);
    let listeners = target.listeners_snapshot();
    let mut event = Event::new(String::from("t"), false, false, false, false);
    let mut invoke = InnerInvoke::new();
    let first = invoke.next_listener(&listeners, &mut event, ListenerPhase::Bubbling, &mut target);
    assert_eq!(first, ListenerCall::Call { callback: Some(1) });
    event.stop_immediate_propagation();
    assert!(!invoke.after_listener(&mut event));
    let next = invoke.next_listener(&listeners, &mut event, ListenerPhase::Bubbling, &mut target);
    assert_eq!(next, ListenerCall::Done);
}

#[test]
fn activation_target_is_the_clicked_target() {
    let path = build_path_for_target(7, &[3]);
    assert_eq!(activation_target_index("click", &path, true), Some(0));
    assert_eq!(activation_target_index("click", &path, false), None);
    assert_eq!(activation_target_index("keyup", &path, true), None);
}

#[test]
fn abort_reaches_dependents_once() {
    let mut signals = AbortSignals::new();
    let a = signals.new_signal();
    let b = signals.new_signal();
    let dependent = signals.new_signal();
    signals.initialize_dependent_abort_signal(dependent, &[a, b]);
    assert!(signals.dependent_value(dependent));
    assert_eq!(signals.source_signals_value(dependent), vec![a, b]);
    assert_eq!(signals.dependent_signals_value(a), vec![dependent]);
    let steps = signals.signal_abort(a, 77);
    let stepped: Vec<usize> = steps.iter().map(|step| step.signal).collect();
    assert_eq!(stepped, vec![a, dependent]);
    assert!(signals.aborted_value(dependent));
    assert_eq!(signals.reason_value(dependent), Some(77));
    assert!(!signals.aborted_value(b));
    assert!(signals.signal_abort(dependent, 5).is_empty());
    assert_eq!(signals.reason_value(dependent), Some(77));
}

#[test]
fn signal_abort_hands_over_and_clears_abort_algorithms() {
    let mut signals = AbortSignals::new();
    let a = signals.new_signal();
    let dependent = signals.new_signal();
    signals.initialize_dependent_abort_signal(dependent, &[a]);
    signals.add_abort_algorithm(a, AbortAlgorithm::Native { callback: 1 });
    signals.add_abort_algorithm(a, AbortAlgorithm::ReadableStreamPipeTo { state: 2 });
    signals.add_abort_algorithm(dependent, AbortAlgorithm::Native { callback: 3 });
    let steps = signals.signal_abort(a, 9);
    assert_eq!(steps.len(), 2);
    assert_eq!(steps[0].signal, a);
    assert_eq!(steps[0].algorithms.len(), 2);
    assert!(steps[0].algorithms[0].matches_entry(&AbortAlgorithm::Native { callback: 1 }));
    assert!(steps[0].algorithms[1].matches_entry(&AbortAlgorithm::ReadableStreamPipeTo { state: 2 }));
    assert_eq!(steps[1].signal, dependent);
    assert_eq!(steps[1].algorithms.len(), 1);
    assert!(steps[1].algorithms[0].matches_entry(&AbortAlgorithm::Native { callback: 3 }));
    assert!(signals.take_abort_algorithms(a).is_empty());
    assert!(signals.take_abort_algorithms(dependent).is_empty());
    assert!(signals.signal_abort(a, 10).is_empty());
    assert_eq!(signals.reason_value(a), Some(9));
}

#[test]
fn dependent_sources_are_listed_once() {
    let mut signals = AbortSignals::new();
    let a = signals.new_signal();
    let b = signals.new_signal();
    let first = signals.new_signal();
    signals.initialize_dependent_abort_signal(first, &[a, b]);
    let second = signals.new_signal();
    signals.initialize_dependent_abort_signal(second, &[first, a, b, a]);
    assert_eq!(signals.source_signals_value(second), vec![a, b]);
    assert_eq!(signals.dependent_signals_value(a), vec![first, second]);
    assert_eq!(signals.dependent_signals_value(b), vec![first, second]);
    assert!(signals.dependent_signals_value(first).is_empty());
}

#[test]
fn a_dependent_of_an_aborted_signal_starts_aborted() {
    let mut signals = AbortSignals::new();
    let aborted = signals.aborted_with_reason(12);
    let fresh = signals.new_signal();
    signals.initialize_dependent_abort_signal(fresh, &[aborted]);
    assert!(signals.aborted_value(fresh));
    assert_eq!(signals.reason_value(fresh), Some(12));
}

#[test]
fn abort_algorithms_are_kept_and_removed() {
    let mut signals = AbortSignals::new();
    let s = signals.new_signal();
    signals.add_abort_algorithm(s, AbortAlgorithm::Native { callback: 1 });
    signals.add_abort_algorithm(s, AbortAlgorithm::RemoveEventListener { event_target: 2, listener_id: 3 });
    signals.remove_abort_algorithm(s, &AbortAlgorithm::RemoveEventListener { event_target: 9, listener_id: 3 });
    let taken = signals.take_abort_algorithms(s);
    assert_eq!(taken.len(), 1);
    assert!(taken[0].matches_entry(&AbortAlgorithm::Native { callback: 1 }));
    assert!(signals.take_abort_algorithms(s).is_empty());
    assert_eq!(signals.replace_onabort(s, Some(4)), None);
    assert_eq!(signals.onabort_value(s), Some(4));
}
