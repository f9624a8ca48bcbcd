use wallpaper_core::geometry::to_logical;
use wallpaper_core::geometry::MonitorInfo;
use wallpaper_core::identity::identity;
use wallpaper_core::placement::plan_wallpaper_windows;
use wallpaper_core::placement::plan_window;
use wallpaper_core::placement::resync_target;
use wallpaper_core::registry::WindowPositions;

fn monitor(x: i32, y: i32, width: u32, height: u32, scale_millis: u32) -> MonitorInfo {
    MonitorInfo { x, y, width, height, scale_millis }
}

#[test]
fn plan_for_main_window() {
    let plan = plan_window(None);
    assert_eq!(plan.label, "wallpaper__main");
    assert_eq!(plan.logical_x, 0);
    assert_eq!(plan.logical_y, 0);
}

#[test]
fn plan_scales_physical_origin_to_logical() {
    let b = monitor(1920, 0, 1080, 1920, 2000);
    let plan = plan_window(Some(&b));
    assert_eq!(plan.label, "wallpaper__1920_0__1080_1920");
    assert_eq!(plan.logical_x, 960);
    assert_eq!(plan.logical_y, 0);
}

#[test]
fn logical_rounding_is_ties_away_from_zero() {
    assert_eq!(to_logical(5, 2000), 3);
    assert_eq!(to_logical(-5, 2000), -3);
    assert_eq!(to_logical(1920, 1500), 1280);
    assert_eq!(to_logical(1, 3000), 0);
    assert_eq!(to_logical(-1, 3000), 0);
    assert_eq!(to_logical(7, 1000), 7);
}

#[test]
fn dedup_skips_origins_already_covered() {
    // Three monitors, the first sharing the main window's origin; the second
    // repeats that origin with another size and is skipped by design; only
    // the third gets a window of its own, for two windows in all.
    let main = monitor(0, 0, 1920, 1080, 1000);
    let monitors = vec![
        monitor(0, 0, 1920, 1080, 1000),
        monitor(0, 0, 2560, 1440, 1000),
        monitor(1920, 0, 1080, 1920, 1000),
    ];
    let picked = plan_wallpaper_windows(&main, &monitors);
    assert_eq!(picked.len(), 1);
    assert_eq!(picked[0].x, 1920);
    assert_eq!(picked[0].y, 0);
    let total_windows = 1 + picked.len();
    assert_eq!(total_windows, 2);
}

#[test]
fn dedup_keeps_first_of_equal_secondary_origins() {
    let main = monitor(0, 0, 1920, 1080, 1000);
    let monitors = vec![
        monitor(1920, 0, 1080, 1920, 1000),
        monitor(1920, 0, 2560, 1440, 2000),
    ];
    let picked = plan_wallpaper_windows(&main, &monitors);
    assert_eq!(picked.len(), 1);
    assert_eq!(picked[0].width, 1080);
    assert_eq!(picked[0].height, 1920);
}

#[test]
fn no_monitors_nothing_planned() {
    let main = monitor(0, 0, 1920, 1080, 1000);
    let picked = plan_wallpaper_windows(&main, &vec![]);
    assert!(picked.is_empty());
}

#[test]
fn resync_reapplies_recorded_placement() {
    let mut reg = WindowPositions::new();
    let b = monitor(1920, 0, 1080, 1920, 2000);
    reg.insert("wallpaper__1920_0__1080_1920".to_string(), b);
    let target = resync_target(&reg, "wallpaper__1920_0__1080_1920").expect("registered");
    assert_eq!(target.x, 1920);
    assert_eq!(target.y, 0);
    assert_eq!(target.width, 1080);
    assert_eq!(target.height, 1920);
}

#[test]
fn resync_unknown_label_is_a_quiet_miss() {
    let reg = WindowPositions::new();
    assert!(resync_target(&reg, "wallpaper__main").is_none());
}

#[test]
fn resync_twice_gives_the_same_placement() {
    let mut reg = WindowPositions::new();
    reg.insert("wallpaper__main".to_string(), monitor(0, 0, 1920, 1080, 1000));
    let first = resync_target(&reg, "wallpaper__main");
    let second = resync_target(&reg, "wallpaper__main");
    assert_eq!(first, second);
    let p = first.expect("registered");
    assert_eq!((p.x, p.y, p.width, p.height), (0, 0, 1920, 1080));
}

#[test]
fn bootstrap_end_to_end_two_monitors() {
    // Monitors A (primary, scale 1.0) and B (portrait, scale 2.0): bootstrap
    // yields the main window on A and one window for B at logical (960, 0),
    // and the registry records each monitor under its window's label.
    let a = monitor(0, 0, 1920, 1080, 1000);
    let b = monitor(1920, 0, 1080, 1920, 2000);
    let mut reg = WindowPositions::new();

    let main_plan = plan_window(None);
    assert_eq!(main_plan.label, "wallpaper__main");
    assert_eq!((main_plan.logical_x, main_plan.logical_y), (0, 0));
    // The freshly created main window lands on A; record it.
    reg.insert(main_plan.label, a);

    let picked = plan_wallpaper_windows(&a, &vec![a, b]);
    assert_eq!(picked.len(), 1);
    let b_plan = plan_window(Some(&picked[0]));
    assert_eq!(b_plan.label, "wallpaper__1920_0__1080_1920");
    assert_eq!((b_plan.logical_x, b_plan.logical_y), (960, 0));
    reg.insert(b_plan.label, picked[0]);

    let main_mon = reg.get("wallpaper__main").expect("main registered");
    assert_eq!((main_mon.x, main_mon.y, main_mon.width, main_mon.height), (0, 0, 1920, 1080));
    assert_eq!(main_mon.scale_millis, 1000);
    let b_mon = reg.get("wallpaper__1920_0__1080_1920").expect("B registered");
    assert_eq!((b_mon.x, b_mon.y, b_mon.width, b_mon.height), (1920, 0, 1080, 1920));
    assert_eq!(b_mon.scale_millis, 2000);

    // Resync for B re-applies exactly B's physical origin and size.
    let target = resync_target(&reg, "wallpaper__1920_0__1080_1920").expect("registered");
    assert_eq!((target.x, target.y, target.width, target.height), (1920, 0, 1080, 1920));
}

#[test]
fn identity_of_planned_monitors_matches_labels() {
    let main = monitor(0, 0, 1920, 1080, 1000);
    let monitors = vec![
        monitor(0, 0, 1920, 1080, 1000),
        monitor(-1920, 0, 1920, 1080, 1000),
        monitor(1920, 0, 1080, 1920, 2000),
    ];
    let picked = plan_wallpaper_windows(&main, &monitors);
    assert_eq!(picked.len(), 2);
    assert_eq!(identity(Some(&picked[0])), "wallpaper__-1920_0__1920_1080");
    assert_eq!(identity(Some(&picked[1])), "wallpaper__1920_0__1080_1920");
}
