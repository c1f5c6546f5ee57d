use mandelbrot::controller::Action;
use mandelbrot::controller::Controller;
use mandelbrot::controller::ControllerState;
use mandelbrot::controller::EventsHandler;
use mandelbrot::controller::InputEvent;

fn drag(xrel: i32, yrel: i32) -> InputEvent {
    InputEvent::MouseMotion { left: true, xrel, yrel }
}

fn wheel(y: i32) -> InputEvent {
    InputEvent::MouseWheel { y, normal: true }
}

#[test]
fn new_handler_has_gathered_nothing() {
    let mut events = EventsHandler::new();
    assert!(!events.quit());
    assert!(!events.has_pending());
    assert_eq!(events.range_move(), None);
    assert_eq!(events.range_shrink(), None);
}

#[test]
fn drags_add_up_to_one_displacement() {
    let mut events = EventsHandler::new();
    events.handle(&vec![drag(3, -1), drag(4, 0), drag(-10, 7)]);
    assert!(events.has_pending());
    assert_eq!(events.range_move(), Some((-3, 6)));
    assert_eq!(events.range_move(), None);
    assert!(!events.has_pending());
}

#[test]
fn motion_without_the_button_is_no_drag() {
    let mut events = EventsHandler::new();
    events.handle_event(InputEvent::MouseMotion { left: false, xrel: 5, yrel: 5 });
    assert!(!events.has_pending());
    assert_eq!(events.range_move(), None);
}

#[test]
fn motion_that_does_not_move_is_no_drag() {
    let mut events = EventsHandler::new();
    events.handle_event(drag(0, 0));
    assert_eq!(events.range_move(), None);
    events.handle_event(drag(0, 1));
    assert_eq!(events.range_move(), Some((0, 1)));
}

#[test]
fn drags_that_cancel_still_wait_to_be_applied() {
    let mut events = EventsHandler::new();
    events.handle(&vec![drag(5, 5), drag(-5, -5)]);
    assert_eq!(events.range_move(), Some((0, 0)));
}

#[test]
fn wheel_turns_add_up() {
    let mut events = EventsHandler::new();
    events.handle(&vec![wheel(1), wheel(1), wheel(-3)]);
    assert_eq!(events.range_shrink(), Some(-1));
    assert_eq!(events.range_shrink(), None);
}

#[test]
fn wheel_turn_of_zero_still_waits_to_be_applied() {
    let mut events = EventsHandler::new();
    events.handle_event(wheel(0));
    assert!(events.has_pending());
    assert_eq!(events.range_shrink(), Some(0));
}

#[test]
fn flipped_wheel_is_ignored() {
    let mut events = EventsHandler::new();
    events.handle_event(InputEvent::MouseWheel { y: 2, normal: false });
    assert_eq!(events.range_shrink(), None);
}

#[test]
fn quit_is_remembered() {
    let mut events = EventsHandler::new();
    events.handle(&vec![InputEvent::Other, InputEvent::Quit, drag(1, 1)]);
    assert!(events.quit());
    assert_eq!(events.range_move(), Some((1, 1)));
    assert!(events.quit());
}

#[test]
fn other_events_change_nothing() {
    let mut events = EventsHandler::new();
    events.handle(&vec![InputEvent::Other, InputEvent::Other]);
    assert!(!events.quit());
    assert!(!events.has_pending());
}

#[test]
fn can_handle_refuses_a_sum_that_leaves_the_integers() {
    let mut events = EventsHandler::new();
    events.handle_event(drag(i32::MAX, i32::MIN));
    assert!(events.can_handle(drag(0, 1)));
    assert!(!events.can_handle(drag(1, 0)));
    assert!(!events.can_handle(drag(0, -1)));
    assert!(events.can_handle(drag(-1, 1)));
    assert!(events.can_handle(InputEvent::MouseMotion { left: false, xrel: 1, yrel: -1 }));
    events.handle_event(wheel(i32::MAX));
    assert!(!events.can_handle(wheel(1)));
    assert!(events.can_handle(wheel(-1)));
    assert!(events.can_handle(InputEvent::MouseWheel { y: 1, normal: false }));
    assert!(events.can_handle(InputEvent::Quit));
}

#[test]
fn first_tick_asks_for_the_first_generation() {
    let mut controller = Controller::new();
    assert_eq!(controller.state(), ControllerState::Idle);
    assert_eq!(controller.tick(false), Action::Generate { pan: None, zoom: None });
    assert_eq!(controller.state(), ControllerState::Generating);
}

#[test]
fn first_generation_waits_for_an_idle_pool() {
    let mut controller = Controller::new();
    assert_eq!(controller.tick(true), Action::Wait);
    assert_eq!(controller.state(), ControllerState::Idle);
    assert_eq!(controller.tick(false), Action::Generate { pan: None, zoom: None });
}

#[test]
fn nothing_is_submitted_without_a_change() {
    let mut controller = Controller::new();
    controller.tick(false);
    assert_eq!(controller.tick(true), Action::Wait);
    assert_eq!(controller.state(), ControllerState::Generating);
    assert_eq!(controller.tick(false), Action::Wait);
    assert_eq!(controller.state(), ControllerState::Idle);
    assert_eq!(controller.tick(false), Action::Wait);
}

#[test]
fn nothing_is_submitted_while_the_pool_is_busy() {
    let mut controller = Controller::new();
    controller.tick(false);
    controller.handle_event(drag(4, 2));
    for _ in 0..5 {
        assert_eq!(controller.tick(true), Action::Wait);
    }
    assert_eq!(
        controller.tick(false),
        Action::Generate { pan: Some((4, 2)), zoom: None }
    );
}

#[test]
fn input_during_a_generation_is_kept_and_handed_over_in_one_piece() {
    let mut controller = Controller::new();
    controller.tick(false);
    controller.handle_event(drag(1, 1));
    assert_eq!(controller.tick(true), Action::Wait);
    controller.handle(&vec![drag(2, -5), wheel(1)]);
    assert_eq!(controller.tick(true), Action::Wait);
    controller.handle_event(wheel(2));
    assert_eq!(
        controller.tick(false),
        Action::Generate { pan: Some((3, -4)), zoom: Some(3) }
    );
    assert_eq!(controller.state(), ControllerState::Generating);
    assert_eq!(controller.tick(false), Action::Wait);
    assert_eq!(controller.state(), ControllerState::Idle);
}

#[test]
fn applied_input_is_forgotten() {
    let mut controller = Controller::new();
    controller.tick(false);
    controller.handle_event(wheel(-2));
    assert_eq!(
        controller.tick(false),
        Action::Generate { pan: None, zoom: Some(-2) }
    );
    assert_eq!(controller.tick(false), Action::Wait);
    controller.handle_event(wheel(1));
    assert_eq!(
        controller.tick(false),
        Action::Generate { pan: None, zoom: Some(1) }
    );
}

#[test]
fn quit_wins_over_everything() {
    let mut controller = Controller::new();
    controller.handle(&vec![drag(1, 1), InputEvent::Quit]);
    assert_eq!(controller.tick(false), Action::Quit);
    assert_eq!(controller.tick(true), Action::Quit);
    assert_eq!(controller.state(), ControllerState::Idle);
}

#[test]
fn controller_can_handle_agrees_with_its_handler() {
    let mut controller = Controller::new();
    controller.handle_event(wheel(i32::MIN));
    assert!(!controller.can_handle(wheel(-1)));
    assert!(controller.can_handle(wheel(1)));
    assert!(controller.can_handle(drag(i32::MAX, i32::MAX)));
}
