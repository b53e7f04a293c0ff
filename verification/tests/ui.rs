use clipit::ui::{popup_position, tray_icon_rgba};

#[test]
fn tray_icon_is_a_frame_with_a_cross() {
    let rgba = tray_icon_rgba();
    assert_eq!(rgba.len(), 18 * 18 * 4);
    for y in 0..18usize {
        for x in 0..18usize {
            let i = (y * 18 + x) * 4;
            let on = x == 3 || x == 14 || y == 3 || y == 14 || x == 8 || x == 9 || y == 8 || y == 9;
            assert_eq!(&rgba[i..i + 3], &[0, 0, 0]);
            assert_eq!(rgba[i + 3], if on { 255 } else { 0 });
        }
    }
    assert_eq!(rgba[3], 0);
    assert_eq!(rgba[(3 * 18 + 0) * 4 + 3], 255);
}

#[test]
fn popup_is_centered_on_the_lower_edge() {
    assert_eq!(popup_position(0, 0, 1920, 1080, 460, 420), (730, 660));
    assert_eq!(popup_position(100, 50, 1001, 800, 500, 300), (350, 550));
    assert_eq!(popup_position(-1920, 0, 1920, 1080, 460, 420), (-1190, 660));
}

#[test]
fn popup_never_leaves_the_work_area_origin() {
    assert_eq!(popup_position(10, 20, 300, 200, 460, 420), (10, 20));
    assert_eq!(popup_position(10, 20, 460, 420, 460, 420), (10, 20));
}

#[test]
fn popup_position_stays_within_i32() {
    assert_eq!(popup_position(i32::MAX, i32::MAX, u32::MAX, u32::MAX, 0, 0), (i32::MAX, i32::MAX));
    assert_eq!(
        popup_position(i32::MIN, i32::MIN, 10, 10, i32::MIN, i32::MIN),
        (-1073741819, 10)
    );
}
