use slint_layer_support::layer_shell::{
    dispatcher_next, dispatcher_start, handle_surface_event, Anchor, DispatcherAction,
    DispatcherEvent, KeyboardInteractivity, Layer, LayerShellRole, LayerSurfaceEvent,
    PendingConfigure, PendingConfigures, SurfaceIds, SurfaceState,
};

fn configure(serial: u32, width: u32, height: u32, surface_id: usize) -> PendingConfigure {
    PendingConfigure { serial, width, height, surface_id }
}

#[test]
fn anchor_bits_combine() {
    assert_eq!(Anchor::none().bits(), 0);
    assert_eq!(Anchor::top().bits(), 1);
    assert_eq!(Anchor::bottom().bits(), 2);
    assert_eq!(Anchor::left().bits(), 4);
    assert_eq!(Anchor::right().bits(), 8);
    assert_eq!((Anchor::top() | Anchor::left()).bits(), 5);
    assert_eq!((Anchor::left() | Anchor::top()).bits(), 5);
    assert_eq!((Anchor::top() | Anchor::top()).bits(), 1);
    assert_eq!((Anchor::bottom() | Anchor::none()).bits(), 2);
    let all = Anchor::top() | Anchor::bottom() | Anchor::left() | Anchor::right();
    assert_eq!(all.bits(), 15);
    assert_eq!(Anchor::default().bits(), 0);
}

#[test]
fn role_clone_keeps_every_field() {
    let role = LayerShellRole {
        layer: Layer::Overlay,
        anchor: Anchor::bottom() | Anchor::left() | Anchor::right(),
        exclusive_zone: 240,
        size: (0, 240),
        namespace: "osk".to_string(),
        keyboard_interactivity: KeyboardInteractivity::NoFocus,
    };
    let copy = role.clone();
    assert_eq!(copy.anchor.bits(), 14);
    assert_eq!(copy.exclusive_zone, 240);
    assert_eq!(copy.size, (0, 240));
    assert_eq!(copy.namespace, "osk");
    assert!(matches!(copy.layer, Layer::Overlay));
    assert!(matches!(copy.keyboard_interactivity, KeyboardInteractivity::NoFocus));
}

#[test]
fn newest_configure_wins_and_older_ones_are_dropped() {
    let mut q = PendingConfigures::new();
    q.push(configure(1, 100, 50, 1));
    q.push(configure(2, 300, 60, 2));
    q.push(configure(3, 200, 70, 1));
    q.push(configure(4, 400, 80, 2));
    let mut s1 = SurfaceState::new(1, (0, 0));
    assert!(s1.has_pending_configure(&q));
    let c = s1.take_pending_configure(&mut q).unwrap();
    assert_eq!((c.serial, c.width, c.height), (3, 200, 70));
    assert_eq!(s1.current_size(), (200, 70));
    assert!(!s1.has_pending_configure(&q));
    assert!(s1.take_pending_configure(&mut q).is_none());
    assert_eq!(s1.current_size(), (200, 70));
    // Surface 2 still has its newest one.
    let mut s2 = SurfaceState::new(2, (10, 10));
    assert!(s2.has_pending_configure(&q));
    let c = s2.take_pending_configure(&mut q).unwrap();
    assert_eq!((c.serial, c.width, c.height), (4, 400, 80));
    assert_eq!(s2.current_size(), (400, 80));
    assert!(!q.has_pending_for(2));
}

#[test]
fn surface_without_configure_keeps_its_size() {
    let mut q = PendingConfigures::new();
    q.push(configure(9, 1, 1, 5));
    let mut s = SurfaceState::new(3, (640, 48));
    assert!(!s.has_pending_configure(&q));
    assert!(s.take_pending_configure(&mut q).is_none());
    assert_eq!(s.current_size(), (640, 48));
    assert_eq!(s.id(), 3);
    assert!(q.has_pending_for(5));
}

#[test]
fn take_latest_keeps_other_surfaces_in_order() {
    let mut q = PendingConfigures::new();
    q.push(configure(1, 1, 1, 7));
    q.push(configure(2, 2, 2, 8));
    q.push(configure(3, 3, 3, 7));
    q.push(configure(4, 4, 4, 9));
    q.push(configure(5, 5, 5, 8));
    assert_eq!(q.take_latest_for(7).map(|c| c.serial), Some(3));
    assert_eq!(q.take_latest_for(8).map(|c| c.serial), Some(5));
    assert_eq!(q.take_latest_for(8).map(|c| c.serial), None);
    assert_eq!(q.take_latest_for(9).map(|c| c.serial), Some(4));
    assert!(q.take_latest_for(9).is_none());
}

#[test]
fn surface_ids_count_up_from_one() {
    let mut ids = SurfaceIds::new();
    assert_eq!(ids.allocate(), 1);
    assert_eq!(ids.allocate(), 2);
    assert_eq!(ids.allocate(), 3);
}

#[test]
fn configure_events_are_queued_and_close_is_reported() {
    let mut q = PendingConfigures::new();
    assert!(!handle_surface_event(
        &mut q,
        4,
        LayerSurfaceEvent::Configure { serial: 11, width: 320, height: 200 }
    ));
    assert!(!handle_surface_event(&mut q, 4, LayerSurfaceEvent::Other));
    assert!(handle_surface_event(&mut q, 4, LayerSurfaceEvent::Closed));
    let c = q.take_latest_for(4).unwrap();
    assert_eq!((c.serial, c.width, c.height, c.surface_id), (11, 320, 200, 4));
    assert!(q.take_latest_for(4).is_none());
}

#[test]
fn dispatcher_wakes_after_every_successful_dispatch() {
    assert_eq!(dispatcher_start(true), DispatcherAction::Dispatch);
    assert_eq!(dispatcher_start(false), DispatcherAction::Exit);
    assert_eq!(dispatcher_next(true, DispatcherEvent::Dispatched), DispatcherAction::WakeMainLoop);
    assert_eq!(dispatcher_next(false, DispatcherEvent::Dispatched), DispatcherAction::WakeMainLoop);
    assert_eq!(dispatcher_next(true, DispatcherEvent::WakeSent), DispatcherAction::Dispatch);
    assert_eq!(dispatcher_next(false, DispatcherEvent::WakeSent), DispatcherAction::Exit);
    assert_eq!(dispatcher_next(true, DispatcherEvent::WakeFailed), DispatcherAction::Exit);
    assert_eq!(dispatcher_next(true, DispatcherEvent::DispatchFailed), DispatcherAction::Exit);
}
