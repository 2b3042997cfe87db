use chinchilib::keys::{KeySet, MyKeys};
use chinchilib::moving_pixel::MovingPixel;
use chinchilib::schedule::DoneStatus;
use rgb::RGBA8;

const RED: RGBA8 = RGBA8 { r: 255, g: 0, b: 0, a: 255 };

#[test]
fn pixel_moves_with_arrows() {
    let mut p = MovingPixel::new(50, 100);
    let mut keys = KeySet::new();
    keys.insert(MyKeys::Left);
    keys.insert(MyKeys::Down);
    assert!(p.on_tick(&keys));
    assert_eq!(p.pos, (49, 101));
    let mut letters = KeySet::new();
    letters.insert(MyKeys::KeyQ);
    assert!(!p.on_tick(&letters));
    assert_eq!(p.pos, (49, 101));
    let mut both = KeySet::new();
    both.insert(MyKeys::Up);
    both.insert(MyKeys::Right);
    assert!(p.on_tick(&both));
    assert_eq!(p.pos, (50, 100));
}

#[test]
fn pixel_done_status() {
    assert_eq!(MovingPixel::new(49, 100).done(), DoneStatus::Remain);
    assert_eq!(MovingPixel::new(50, 49).done(), DoneStatus::Exit);
    assert_eq!(MovingPixel::new(50, 100).done(), DoneStatus::NotDone);
    assert_eq!(MovingPixel::default().pos, (0, 0));
}

#[test]
fn pixel_draws_inside_frame_only() {
    let mut frame = vec![0u8; 16];
    assert!(MovingPixel::new(1, 1).draw(&mut frame, 2, RED));
    assert_eq!(&frame[12..16], &[255, 0, 0, 255]);
    let mut frame = vec![0u8; 16];
    assert!(!MovingPixel::new(2, 1).draw(&mut frame, 2, RED));
    assert!(!MovingPixel::new(0, 2).draw(&mut frame, 2, RED));
    assert_eq!(frame, vec![0u8; 16]);
}

#[test]
fn pixel_not_drawn_when_coordinate_product_too_large() {
    let mut frame = vec![0u8; 80];
    assert!(!MovingPixel::new(10, 9).draw(&mut frame, 1, RED));
    assert_eq!(frame, vec![0u8; 80]);
    assert!(MovingPixel::new(10, 7).draw(&mut frame, 1, RED));
    assert_eq!(&frame[68..72], &[255, 0, 0, 255]);
    assert!(!MovingPixel::new(usize::MAX, 2).draw(&mut frame, 1, RED));
}
