use wl_binclock::surface::{
    layer_anchor, next_action, on_input, LoopAction, SurfaceState, HEIGHT, PIXEL_SIZE, STORE_SIZE,
    WIDTH,
};

#[test]
fn new_surface_is_96_by_64_and_unconfigured() {
    let s = SurfaceState::new();
    assert_eq!((s.width, s.height, s.configured), (96, 64, false));
    assert_eq!(WIDTH * HEIGHT * PIXEL_SIZE * 2, STORE_SIZE);
}

#[test]
fn configure_sets_size() {
    let mut s = SurfaceState::new();
    s.configure(200, 100);
    assert_eq!(s, SurfaceState { width: 200, height: 100, configured: true });
    assert_eq!(s.buffer_layout(), (200, 100, 800));
    assert_eq!(SurfaceState::new().buffer_layout(), (96, 64, 384));
}

#[test]
fn loop_actions() {
    assert_eq!(next_action(1, true, true), LoopAction::DispatchWayland);
    assert_eq!(next_action(2, false, true), LoopAction::ReadInput);
    assert_eq!(next_action(1, false, false), LoopAction::Nothing);
    assert_eq!(next_action(0, true, true), LoopAction::CancelRead);
    assert_eq!(next_action(-1, true, false), LoopAction::PollFailed);
}

#[test]
fn input_draws_only_when_configured() {
    let mut s = SurfaceState::new();
    let f = on_input(&s, "123456\n");
    assert!(f.valid && !f.draw);
    assert_eq!(f.digits, [1, 2, 3, 4, 5, 6]);
    s.configure(96, 64);
    let f = on_input(&s, "nope\n");
    assert!(!f.valid && f.draw);
    assert_eq!(f.digits, [0; 6]);
}

#[test]
fn anchor_bits() {
    // `--anchor 9  # top-right`
    assert_eq!(layer_anchor(9).map(|a| a.bits()), Some(9));
    assert_eq!(layer_anchor(0).map(|a| a.bits()), Some(0));
    assert_eq!(layer_anchor(15).map(|a| a.bits()), Some(15));
    assert!(layer_anchor(16).is_none());
    assert!(layer_anchor(0x8000_0001).is_none());
}
