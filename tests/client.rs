use naia_mq_client::client::{
    App, AuthEvent, ClientEvent, ExampleEvent, Outgoing, Shade, Sprite, TransportError,
};
use naia_mq_client::command::{shift, CommandAccumulator, KeyCommand, SQUARE_SPEED};
use naia_mq_client::store::{process_command, EntityStore, PointActor, PointActorColor};

fn point(x: u16, y: u16) -> PointActor {
    PointActor { x, y, color: PointActorColor::Red }
}

fn key_event(k: u16, w: bool, s: bool, a: bool, d: bool) -> ClientEvent {
    ClientEvent::Command(k, ExampleEvent::KeyCommand(KeyCommand::new(w, s, a, d)))
}

#[test]
fn sample_accumulates_or_of_all_samples() {
    let mut acc = CommandAccumulator::new();
    acc.sample(true, false, false, false);
    acc.sample(false, false, true, false);
    acc.sample(false, false, false, false);
    assert_eq!(acc.take(), Some(KeyCommand::new(true, false, true, false)));
}

#[test]
fn repeated_identical_samples_are_idempotent() {
    let mut acc = CommandAccumulator::new();
    acc.sample(false, true, false, true);
    let once = acc.peek();
    acc.sample(false, true, false, true);
    assert_eq!(acc.peek(), once);
    assert_eq!(once, Some(KeyCommand::new(false, true, false, true)));
}

#[test]
fn sample_never_clears_an_intent() {
    let mut c = KeyCommand::new(true, true, false, false);
    c.merge(false, false, false, true);
    assert_eq!(c, KeyCommand::new(true, true, false, true));
}

#[test]
fn take_without_sample_is_none() {
    let mut acc = CommandAccumulator::new();
    assert_eq!(acc.take(), None);
    assert!(!acc.is_pending());
}

#[test]
fn take_twice_yields_command_once() {
    let mut acc = CommandAccumulator::new();
    acc.sample(false, false, false, false);
    assert_eq!(acc.take(), Some(KeyCommand::new(false, false, false, false)));
    assert_eq!(acc.take(), None);
}

#[test]
fn tick_with_pawn_sends_pending_once() {
    let mut app = App::new();
    app.handle_event(&ClientEvent::AssignPawn(4));
    app.sample_input(false, false, false, true);
    let sent = app.handle_event(&ClientEvent::Tick);
    assert_eq!(
        sent,
        Some(Outgoing { pawn_key: 4, command: KeyCommand::new(false, false, false, true) })
    );
    assert_eq!(app.pending_command(), None);
    assert_eq!(app.handle_event(&ClientEvent::Tick), None);
}

#[test]
fn tick_without_pawn_keeps_pending() {
    let mut app = App::new();
    app.sample_input(true, false, false, false);
    assert_eq!(app.handle_event(&ClientEvent::Tick), None);
    assert_eq!(app.pending_command(), Some(KeyCommand::new(true, false, false, false)));
}

#[test]
fn last_assignment_wins() {
    let mut app = App::new();
    app.handle_event(&ClientEvent::AssignPawn(1));
    app.handle_event(&ClientEvent::AssignPawn(2));
    assert_eq!(app.pawn_key(), Some(2));
}

#[test]
fn unassign_clears_whatever_key_it_names() {
    let mut app = App::new();
    app.handle_event(&ClientEvent::AssignPawn(5));
    app.handle_event(&ClientEvent::UnassignPawn(9));
    assert_eq!(app.pawn_key(), None);
}

#[test]
fn disconnection_keeps_assignment() {
    let mut app = App::new();
    app.handle_event(&ClientEvent::Connection);
    assert!(app.is_connected());
    app.handle_event(&ClientEvent::AssignPawn(3));
    app.handle_event(&ClientEvent::Disconnection);
    assert!(!app.is_connected());
    assert_eq!(app.pawn_key(), Some(3));
}

#[test]
fn forward_moves_one_step_and_opposites_cancel() {
    let mut p = point(100, 100);
    process_command(&KeyCommand::new(true, false, false, false), &mut p);
    assert_eq!((p.x, p.y), (100, 97));
    let mut q = point(100, 100);
    process_command(&KeyCommand::new(true, true, false, false), &mut q);
    assert_eq!((q.x, q.y), (100, 100));
    let mut r = point(100, 100);
    process_command(&KeyCommand::new(false, true, true, true), &mut r);
    assert_eq!((r.x, r.y), (100, 103));
    let mut t = point(100, 100);
    process_command(&KeyCommand::new(false, false, false, true), &mut t);
    assert_eq!((t.x, t.y), (103, 100));
    assert_eq!(t.color, PointActorColor::Red);
}

#[test]
fn movement_wraps_at_coordinate_bounds() {
    assert_eq!(shift(1, true, false), 65534);
    assert_eq!(shift(65534, false, true), 1);
    assert_eq!(shift(0, true, true), 0);
    assert_eq!(shift(10, false, false), 10);
    assert_eq!(SQUARE_SPEED, 3);
}

#[test]
fn command_for_absent_pawn_changes_nothing() {
    let mut app = App::new();
    app.handle_event(&ClientEvent::CreatePawn(1, point(10, 10)));
    assert_eq!(app.handle_event(&key_event(2, true, false, false, false)), None);
    assert_eq!(app.store().get_pawn(1), Some(point(10, 10)));
    assert_eq!(app.store().get_pawn(2), None);
}

#[test]
fn command_replays_on_present_pawn() {
    let mut app = App::new();
    app.handle_event(&ClientEvent::CreatePawn(1, point(10, 10)));
    app.handle_event(&key_event(1, false, false, true, false));
    assert_eq!(app.store().get_pawn(1), Some(point(7, 10)));
}

#[test]
fn non_key_payload_is_ignored() {
    let mut app = App::new();
    app.handle_event(&ClientEvent::CreatePawn(1, point(10, 10)));
    let auth = ExampleEvent::AuthEvent(AuthEvent::new("charlie", "12345"));
    assert_eq!(app.handle_event(&ClientEvent::Command(1, auth)), None);
    assert_eq!(app.store().get_pawn(1), Some(point(10, 10)));
}

#[test]
fn auth_event_keeps_credentials() {
    let auth = AuthEvent::new("charlie", "12345");
    assert_eq!(auth.username, "charlie");
    assert_eq!(auth.password, "12345");
}

#[test]
fn end_to_end_three_frames_then_tick() {
    let mut app = App::new();
    let none: Vec<Result<ClientEvent, TransportError>> = Vec::new();
    let start = vec![Ok(ClientEvent::Connection), Ok(ClientEvent::AssignPawn(7))];
    assert!(app.update(true, false, false, false, &start).is_empty());
    assert!(app.update(true, false, false, false, &none).is_empty());
    let tick = vec![Ok(ClientEvent::Tick)];
    let sent = app.update(true, false, false, false, &tick);
    assert_eq!(
        sent,
        vec![Outgoing { pawn_key: 7, command: KeyCommand::new(true, false, false, false) }]
    );
    assert_eq!(app.pending_command(), None);
    let after = app.update(false, false, false, false, &tick);
    assert_eq!(
        after,
        vec![Outgoing { pawn_key: 7, command: KeyCommand::new(false, false, false, false) }]
    );
}

#[test]
fn transport_error_is_not_fatal() {
    let mut app = App::new();
    let items = vec![
        Ok(ClientEvent::AssignPawn(2)),
        Err(TransportError { message: "malformed frame".to_string() }),
        Ok(ClientEvent::Tick),
    ];
    let sent = app.update(false, true, false, false, &items);
    assert_eq!(
        sent,
        vec![Outgoing { pawn_key: 2, command: KeyCommand::new(false, true, false, false) }]
    );
    assert_eq!(app.receive(&Err(TransportError { message: "x".to_string() })), None);
}

#[test]
fn one_send_per_tick_in_a_drain() {
    let mut app = App::new();
    let items = vec![
        Ok(ClientEvent::AssignPawn(1)),
        Ok(ClientEvent::Tick),
        Ok(ClientEvent::Tick),
        Ok(ClientEvent::Tick),
    ];
    let sent = app.update(true, false, true, false, &items);
    assert_eq!(
        sent,
        vec![Outgoing { pawn_key: 1, command: KeyCommand::new(true, false, true, false) }]
    );
}

#[test]
fn store_insert_update_remove() {
    let mut store = EntityStore::new();
    store.insert_actor(3, point(1, 2));
    store.insert_actor(5, point(3, 4));
    store.insert_actor(3, point(9, 9));
    assert_eq!(store.actor_keys(), vec![3, 5]);
    assert_eq!(store.get_actor(3), Some(point(9, 9)));
    store.remove_actor(3);
    assert_eq!(store.actor_keys(), vec![5]);
    assert_eq!(store.get_actor(3), None);
    store.insert_pawn(8, point(0, 0));
    assert_eq!(store.pawn_keys(), vec![8]);
    assert!(store.apply_to_pawn(8, &KeyCommand::new(false, true, false, false)));
    assert_eq!(store.get_pawn(8), Some(point(0, 3)));
    assert!(!store.apply_to_pawn(9, &KeyCommand::new(false, true, false, false)));
    store.remove_pawn(8);
    assert!(store.pawn_keys().is_empty());
}

#[test]
fn actor_events_update_store() {
    let mut app = App::new();
    app.handle_event(&ClientEvent::CreateActor(1, point(5, 5)));
    app.handle_event(&ClientEvent::UpdateActor(1, point(6, 5)));
    assert_eq!(app.store().get_actor(1), Some(point(6, 5)));
    app.handle_event(&ClientEvent::DeleteActor(1));
    assert_eq!(app.store().get_actor(1), None);
    app.handle_event(&ClientEvent::CreatePawn(2, point(1, 1)));
    app.handle_event(&ClientEvent::DeletePawn(2));
    assert_eq!(app.store().get_pawn(2), None);
}

#[test]
fn sprites_need_a_connection() {
    let mut app = App::new();
    app.handle_event(&ClientEvent::CreateActor(1, point(5, 5)));
    assert!(app.sprites().is_empty());
}

#[test]
fn sprites_color_actors_and_whiten_pawns() {
    let mut app = App::new();
    app.handle_event(&ClientEvent::Connection);
    app.handle_event(&ClientEvent::CreateActor(
        1,
        PointActor { x: 5, y: 6, color: PointActorColor::Blue },
    ));
    app.handle_event(&ClientEvent::CreateActor(
        2,
        PointActor { x: 7, y: 8, color: PointActorColor::Yellow },
    ));
    app.handle_event(&ClientEvent::CreatePawn(1, PointActor { x: 5, y: 6, color: PointActorColor::Blue }));
    assert_eq!(
        app.sprites(),
        vec![
            Sprite { key: 1, x: 5, y: 6, shade: Shade::Blue },
            Sprite { key: 2, x: 7, y: 8, shade: Shade::Yellow },
            Sprite { key: 1, x: 5, y: 6, shade: Shade::White },
        ]
    );
}
