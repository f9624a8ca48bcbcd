use wallpaper_core::geometry::MonitorInfo;
use wallpaper_core::identity::identity;

fn monitor(x: i32, y: i32, width: u32, height: u32, scale_millis: u32) -> MonitorInfo {
    MonitorInfo { x, y, width, height, scale_millis }
}

#[test]
fn main_window_label() {
    assert_eq!(identity(None), "wallpaper__main");
}

#[test]
fn monitor_label_exact() {
    let m = monitor(0, 0, 1920, 1080, 1000);
    assert_eq!(identity(Some(&m)), "wallpaper__0_0__1920_1080");
}

#[test]
fn monitor_label_portrait() {
    let m = monitor(1920, 0, 1080, 1920, 2000);
    assert_eq!(identity(Some(&m)), "wallpaper__1920_0__1080_1920");
}

#[test]
fn monitor_label_negative_origin() {
    let m = monitor(-2560, -1440, 2560, 1440, 1000);
    assert_eq!(identity(Some(&m)), "wallpaper__-2560_-1440__2560_1440");
}

#[test]
fn monitor_label_extreme_coordinates() {
    let m = monitor(i32::MIN, i32::MAX, u32::MAX, 1, 1);
    assert_eq!(
        identity(Some(&m)),
        "wallpaper__-2147483648_2147483647__4294967295_1"
    );
}

#[test]
fn identity_deterministic_ignores_scale() {
    // Same origin and size, different scale factors: same label.
    let m1 = monitor(100, 200, 1920, 1080, 1000);
    let m2 = monitor(100, 200, 1920, 1080, 1750);
    assert_eq!(identity(Some(&m1)), identity(Some(&m2)));
}

#[test]
fn identity_repeated_calls_agree() {
    let m = monitor(7, -9, 640, 480, 1250);
    assert_eq!(identity(Some(&m)), identity(Some(&m)));
}

#[test]
fn identity_distinct_origins_distinct_labels() {
    let m1 = monitor(0, 0, 1920, 1080, 1000);
    let m2 = monitor(1920, 0, 1920, 1080, 1000);
    let m3 = monitor(0, 1080, 1920, 1080, 1000);
    assert_ne!(identity(Some(&m1)), identity(Some(&m2)));
    assert_ne!(identity(Some(&m1)), identity(Some(&m3)));
    assert_ne!(identity(Some(&m2)), identity(Some(&m3)));
}

#[test]
fn monitor_label_never_the_main_label() {
    let m = monitor(0, 0, 1920, 1080, 1000);
    assert_ne!(identity(Some(&m)), identity(None));
}

#[test]
fn digit_boundaries_render_exactly() {
    let m = monitor(9, 10, 99, 100, 1000);
    assert_eq!(identity(Some(&m)), "wallpaper__9_10__99_100");
}
