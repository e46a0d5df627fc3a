use screen_lookup::geometry::{compute_img_area, top_left, CaptureRegion, DisplayDescriptor};

fn display(width: u32, height: u32, scale_percent: u32) -> DisplayDescriptor {
    DisplayDescriptor { width, height, scale_percent }
}

fn inside(d: DisplayDescriptor, r: CaptureRegion) -> bool {
    r.left + r.width <= d.width && r.top + r.height <= d.height
}

#[test]
fn region_centred_on_point() {
    let d = display(1920, 1080, 100);
    let r = compute_img_area(d, [800, 500]);
    assert_eq!(
        CaptureRegion { left: 650, top: 450, width: 300, height: 100, mouse_pos: (150, 50) },
        r
    );
}

#[test]
fn region_pinned_to_near_corner() {
    let r = compute_img_area(display(1920, 1080, 100), [10, 5]);
    assert_eq!(CaptureRegion { left: 0, top: 0, width: 300, height: 100, mouse_pos: (10, 5) }, r);
}

#[test]
fn region_pinned_to_far_corner() {
    let r = compute_img_area(display(1920, 1080, 100), [1919, 1079]);
    assert_eq!(
        CaptureRegion { left: 1620, top: 980, width: 300, height: 100, mouse_pos: (299, 99) },
        r
    );
}

#[test]
fn region_scaled_display() {
    // 300 / 1.5 = 200 logical wide, 100 / 1.5 = 66 logical high
    let r = compute_img_area(display(1280, 720, 150), [640, 360]);
    assert_eq!(
        CaptureRegion { left: 540, top: 327, width: 200, height: 66, mouse_pos: (150, 49) },
        r
    );
}

#[test]
fn region_stays_inside_for_any_point() {
    let ds = [display(1920, 1080, 100), display(1280, 720, 150), display(200, 50, 100), display(0, 0, 250)];
    let ps = [[i32::MIN, i32::MIN], [-5, 3], [0, 0], [150, 40], [1919, 1079], [5000, -7], [i32::MAX, i32::MAX]];
    for d in ds {
        for p in ps {
            let r = compute_img_area(d, p);
            assert!(inside(d, r), "{:?} {:?} {:?}", d, p, r);
        }
    }
}

#[test]
fn region_clamped_on_small_display() {
    let r = compute_img_area(display(200, 50, 100), [100, 25]);
    assert_eq!((r.left, r.top, r.width, r.height), (0, 0, 200, 50));
    assert_eq!(r.mouse_pos, (100, 25));
}

#[test]
fn top_left_cases() {
    assert_eq!((0, 20), top_left(20, 100, 1000));
    assert_eq!((450, 50), top_left(500, 100, 1000));
    assert_eq!((900, 90), top_left(990, 100, 1000));
    assert_eq!((0, -4), top_left(-4, 100, 1000));
}
