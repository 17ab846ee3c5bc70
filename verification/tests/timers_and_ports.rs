use content::channel_messaging::{
    ChannelMessaging, PortTask, PortTaskOutcome, PostOutcome, TransferError,
};
use content::global_scope::{AnimationFrameCallbacks, NodeObjectCache, WindowProxyCache};
use content::timers::{TimerCompletion, TimerMap};

#[test]
fn timer_ids_start_at_one_and_are_reused_on_restart() {
    let mut timers: TimerMap<&str> = TimerMap::new();
    let a = timers.timer_initialization_steps(None, "a", false, 10, 100);
    let b = timers.timer_initialization_steps(None, "b", true, 20, 200);
    assert_eq!((a, b), (1, 2));
    assert_eq!(timers.len(), 2);
    let again = timers.timer_initialization_steps(Some(a), "a2", false, 5, 101);
    assert_eq!(again, a);
    assert_eq!(timers.len(), 2);
    assert_eq!(timers.window_timer(a, 101).unwrap().handler, "a2");
    assert!(timers.window_timer(a, 100).is_none());
}

#[test]
fn one_shot_timer_is_removed_after_its_task() {
    let mut timers: TimerMap<u8> = TimerMap::new();
    let id = timers.timer_initialization_steps(None, 0, false, 0, 7);
    let (previous, found) = timers.begin_timer_task(id, 7, 3);
    assert_eq!(previous, None);
    assert!(found);
    assert_eq!(timers.current_timer_nesting_level(), Some(3));
    let out = timers.end_timer_task(id, 7, 8, previous);
    assert!(matches!(out, TimerCompletion::Removed));
    assert_eq!(timers.len(), 0);
    assert_eq!(timers.current_timer_nesting_level(), None);
}

#[test]
fn interval_is_rescheduled_with_a_deeper_nesting_level() {
    let mut timers: TimerMap<u8> = TimerMap::new();
    let id = timers.timer_initialization_steps(None, 0, true, 250, 7);
    timers.set_current_timer_nesting_level(Some(4));
    match timers.complete_window_timer(id, 7, 9) {
        TimerCompletion::Rescheduled { timeout_ms, nesting_level } => {
            assert_eq!(timeout_ms, 250);
            assert_eq!(nesting_level, 5);
        }
        _ => panic!("expected a rescheduled interval"),
    }
    assert!(timers.window_timer(id, 9).is_some());
    assert!(matches!(timers.complete_window_timer(id, 7, 10), TimerCompletion::Missing));
}

#[test]
fn clearing_timers() {
    let mut timers: TimerMap<u8> = TimerMap::new();
    let a = timers.timer_initialization_steps(None, 0, false, 1, 11);
    let _b = timers.timer_initialization_steps(None, 0, false, 1, 22);
    assert_eq!(timers.clear_timer(a), Some(11));
    assert_eq!(timers.clear_timer(a), None);
    let (_, found) = timers.begin_timer_task(a, 11, 1);
    assert!(!found);
    assert_eq!(timers.current_timer_nesting_level(), None);
    assert_eq!(timers.clear_all_timers(), vec![22]);
    assert_eq!(timers.len(), 0);
}

#[test]
fn direct_posts_arrive_in_order() {
    let mut cm: ChannelMessaging<&str, u32> = ChannelMessaging::new(1);
    cm.entangle_pair(10, "p1", 11, "p2");
    assert!(matches!(cm.post_message(10, Some(11), 1), PostOutcome::Delivered { request_task: false }));
    assert!(matches!(cm.post_message(10, Some(11), 2), PostOutcome::Delivered { request_task: false }));
    assert!(cm.pop_queued_message(11).is_none());
    assert!(cm.start(11));
    assert_eq!(cm.pop_queued_message(11), Some((1, true)));
    assert_eq!(cm.pop_queued_message(11), Some((2, false)));
    assert_eq!(cm.pop_queued_message(11), None);
    assert!(matches!(cm.post_message(10, Some(11), 3), PostOutcome::Delivered { request_task: true }));
}

#[test]
fn posts_to_a_port_not_entangled_are_ignored() {
    let mut cm: ChannelMessaging<&str, u32> = ChannelMessaging::new(1);
    cm.entangle_pair(10, "p1", 11, "p2");
    assert!(matches!(cm.post_message(10, Some(12), 1), PostOutcome::Ignored));
    assert!(matches!(cm.post_message(10, None, 1), PostOutcome::Ignored));
    assert!(matches!(cm.post_message(99, Some(11), 1), PostOutcome::Ignored));
}

#[test]
fn posts_to_a_remote_port_are_routed() {
    let mut cm: ChannelMessaging<&str, u32> = ChannelMessaging::new(1);
    cm.entangle_remote(10, "local", 50);
    match cm.post_message(10, Some(50), 4) {
        PostOutcome::Routed { msg } => assert_eq!(msg, 4),
        _ => panic!("expected routing"),
    }
}

#[test]
fn close_disentangles_both_ports() {
    let mut cm: ChannelMessaging<&str, u32> = ChannelMessaging::new(1);
    cm.entangle_pair(10, "p1", 11, "p2");
    assert_eq!(cm.close(10), Some(11));
    assert_eq!(cm.port_record(10).unwrap().entangled, None);
    assert!(cm.port_record(10).unwrap().detached);
    assert_eq!(cm.port_record(11).unwrap().entangled, None);
    assert!(matches!(cm.post_message(11, Some(10), 1), PostOutcome::Ignored));
}

#[test]
fn transfer_hands_over_the_queue() {
    let mut cm: ChannelMessaging<&str, u32> = ChannelMessaging::new(1);
    cm.entangle_pair(10, "p1", 11, "p2");
    cm.post_message(10, Some(11), 7);
    assert_eq!(cm.transfer_port(99), Err(TransferError::UnknownPort));
    let (queue, in_flight) = cm.transfer_port(11).unwrap();
    assert_eq!(queue, vec![7]);
    assert_eq!(in_flight, 0);
    assert!(!cm.has_port(11));
    cm.close(10);
    assert_eq!(cm.transfer_port(10), Err(TransferError::Detached));

    let mut other: ChannelMessaging<&str, u32> = ChannelMessaging::new(2);
    other.receive_transferred_port(11, "p2 again", Some(10), queue, in_flight);
    assert!(other.has_port(11));
    assert_eq!(other.port_object(11), Some(&"p2 again"));
    assert!(other.start(11));
    assert_eq!(other.pop_queued_message(11), Some((7, false)));
}

#[test]
fn port_tasks_land_or_return() {
    let mut cm: ChannelMessaging<&str, u32> = ChannelMessaging::new(1);
    assert!(matches!(cm.handle_port_task(5, PortTask::NewTask { msg: 1 }), PortTaskOutcome::Unknown));
    cm.register_port(5, "p");
    cm.start(5);
    assert!(matches!(
        cm.handle_port_task(5, PortTask::NewTask { msg: 1 }),
        PortTaskOutcome::Landed { fire: true }
    ));
    assert!(matches!(
        cm.handle_port_task(5, PortTask::Buffer { buf: vec![2, 3] }),
        PortTaskOutcome::Completed { fire: true }
    ));
    assert_eq!(cm.pop_queued_message(5), Some((1, true)));
    assert_eq!(cm.pop_queued_message(5), Some((2, true)));
    assert_eq!(cm.pop_queued_message(5), Some((3, false)));
}

#[test]
fn animation_frame_callbacks() {
    let mut frames: AnimationFrameCallbacks<&str> = AnimationFrameCallbacks::new();
    assert!(!frames.has_pending_animation_frame_callbacks());
    let a = frames.request_animation_frame("a");
    let b = frames.request_animation_frame("b");
    let c = frames.request_animation_frame("c");
    assert_eq!((a, b, c), (1, 2, 3));
    frames.cancel_animation_frame(b);
    assert!(frames.has_pending_animation_frame_callbacks());
    assert_eq!(frames.take_animation_frame_callbacks(), vec!["a", "c"]);
    assert!(!frames.has_pending_animation_frame_callbacks());
    assert_eq!(frames.request_animation_frame("d"), 4);
}

#[test]
fn node_object_cache_invalidation() {
    let mut cache: NodeObjectCache<&str> = NodeObjectCache::new();
    cache.cache_node_object(1, "one");
    cache.cache_node_object(2, "two");
    cache.cache_node_object(3, "three");
    assert_eq!(cache.cached_node_object(2), Some(&"two"));
    cache.invalidate_cached_node_ids(&[2, 9]);
    assert_eq!(cache.cached_node_object(2), None);
    assert_eq!(cache.cached_node_objects(), vec![&"one", &"three"]);
    cache.clear();
    assert!(cache.cached_node_objects().is_empty());
}

#[test]
fn window_proxies_for_iframes() {
    let mut cache: WindowProxyCache<&str, u8> = WindowProxyCache::new();
    cache.register_iframe_content_navigable(4, 40, Some("proxy"));
    assert_eq!(cache.content_navigable_for_iframe(4), Some(40));
    assert_eq!(cache.window_proxies_for(40), vec![&"proxy"]);
    cache.cache_window_proxy_object(40, 9);
    let (proxy, object) = cache.cached_window_proxy_state(40);
    assert_eq!(proxy, Some(&"proxy"));
    assert_eq!(object, Some(&9));
    cache.unregister_iframe_content_navigable(4);
    assert_eq!(cache.content_navigable_for_iframe(4), None);
}
