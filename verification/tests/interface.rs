use assetc::game::Flow;
use assetc::game::Game;
use assetc::game::GameEvent;
use assetc::geometry::CenterRect;
use assetc::geometry::GenericKey;
use assetc::geometry::Rect;
use assetc::geometry::Rgba;
use assetc::geometry::Vec2d;

#[test]
fn rgba_from_big_endian_word() {
    assert_eq!(Rgba::from(0x11223344u32), Rgba(0x11, 0x22, 0x33, 0x44));
    assert_eq!(Rgba::from(0x000000ffu32), Rgba(0, 0, 0, 0xff));
    assert_eq!(Rgba::default(), Rgba(0, 0, 0, 0));
}

#[test]
fn vec2d_sort_orders_componentwise() {
    let (a, b) = Vec2d(3i32, 1i32).sort(Vec2d(1i32, 2i32));
    assert_eq!(a, Vec2d(1, 1));
    assert_eq!(b, Vec2d(3, 2));
    let (a, b) = Vec2d(1i32, 1i32).sort(Vec2d(1i32, 1i32));
    assert_eq!(a, Vec2d(1, 1));
    assert_eq!(b, Vec2d(1, 1));
}

#[test]
fn vec2d_from_pair() {
    let v: Vec2d<i32> = (4, 5).into();
    assert_eq!(v, Vec2d(4, 5));
}

#[test]
fn rect_new_sorts_corners() {
    let r = Rect::new(Vec2d(10i32, 2i32), Vec2d(3i32, 7i32));
    assert_eq!(*r.x1(), 3);
    assert_eq!(*r.x2(), 10);
    assert_eq!(*r.y1(), 2);
    assert_eq!(*r.y2(), 7);
}

#[test]
fn center_rect_keeps_its_parts() {
    let c: CenterRect<i32, u32> = CenterRect::new(Vec2d(120i32, 120i32), Vec2d(64u32, 64u32));
    let c2 = c;
    assert_eq!(c, c2);
}

#[test]
fn quit_exits_immediately() {
    let mut game = Game::default();
    let flow = game.process_events(&vec![GameEvent::Redraw, GameEvent::Quit, GameEvent::Redraw]);
    assert_eq!(flow, Flow::Exit);
}

#[test]
fn escape_exits_immediately() {
    let mut game = Game::default();
    let flow = game.process_events(&vec![GameEvent::Input(GenericKey::Esc)]);
    assert_eq!(flow, Flow::Exit);
}

#[test]
fn redraw_marks_the_frame_dirty() {
    let mut game = Game::default();
    let flow = game.process_events(&vec![
        GameEvent::Other,
        GameEvent::Redraw,
        GameEvent::Focused(true),
    ]);
    assert_eq!(flow, Flow::Redraw);
}

#[test]
fn uninteresting_events_keep_running() {
    let mut game = Game::default();
    let flow = game.process_events(&vec![
        GameEvent::Focused(false),
        GameEvent::Input(GenericKey::Text(String::from("hi"))),
        GameEvent::Terminate,
    ]);
    assert_eq!(flow, Flow::Continue);
    let flow = game.process_events(&Vec::new());
    assert_eq!(flow, Flow::Continue);
}

#[test]
fn vec2d_arithmetic_is_componentwise() {
    assert_eq!(Vec2d(1i32, 2i32) + Vec2d(3i32, 4i32), Vec2d(4, 6));
    assert_eq!(Vec2d(5i32, 5i32) - Vec2d(2i32, 7i32), Vec2d(3, -2));
}

#[test]
fn rect_from_extent_spans_the_area() {
    let c = CenterRect::new(Vec2d(120i32, 120i32), Vec2d(64u32, 64u32));
    let r = Rect::from_extent(c).unwrap();
    assert_eq!(*r.x1(), 120);
    assert_eq!(*r.y1(), 120);
    assert_eq!(*r.x2(), 184);
    assert_eq!(*r.y2(), 184);
}

#[test]
fn rect_from_extent_rejects_overflow() {
    let c = CenterRect::new(Vec2d(i32::MAX, 0i32), Vec2d(1u32, 0u32));
    assert!(Rect::from_extent(c).is_none());
}

#[test]
fn rect_from_extent_rejects_oversized_extent() {
    // The sum fits, but the extent component itself does not fit i32, as in
    // the conversion the spanned rectangle starts from.
    let c = CenterRect::new(Vec2d(i32::MIN, 0i32), Vec2d(2_147_483_648u32, 0u32));
    assert!(Rect::from_extent(c).is_none());
}
