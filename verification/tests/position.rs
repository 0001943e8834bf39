use agent_toast::position::{
    anchor_from_setting, calculate_notification_position, get_monitor_work_area, stack_offset,
    stack_positions, Anchor, WorkArea, NOTIFICATION_HEIGHT, NOTIFICATION_MARGIN,
    NOTIFICATION_WIDTH,
};

fn wa() -> WorkArea {
    WorkArea {
        x: 0,
        y: 0,
        width: 1920,
        height: 1040,
    }
}

#[test]
fn notification_dimensions_are_positive() {
    assert!(NOTIFICATION_WIDTH > 0);
    assert!(NOTIFICATION_HEIGHT > 0);
    assert!(NOTIFICATION_MARGIN >= 0);
}

#[test]
fn notification_dimensions_reasonable() {
    assert!(NOTIFICATION_WIDTH >= 200 && NOTIFICATION_WIDTH <= 600);
    assert!(NOTIFICATION_HEIGHT >= 80 && NOTIFICATION_HEIGHT <= 300);
    assert!(NOTIFICATION_MARGIN >= 0 && NOTIFICATION_MARGIN <= 50);
}

#[test]
fn notification_stack_offset_calculation() {
    let y_offset = stack_offset(2);
    let expected = 2 * (140 + 10);
    assert_eq!(y_offset, expected);
}

#[test]
fn notification_stack_first_item_no_offset() {
    assert_eq!(stack_offset(0), 0);
}

#[test]
fn anchor_names_map_to_corners() {
    assert_eq!(anchor_from_setting("top_left"), Anchor::TopLeft);
    assert_eq!(anchor_from_setting("top_right"), Anchor::TopRight);
    assert_eq!(anchor_from_setting("bottom_left"), Anchor::BottomLeft);
    assert_eq!(anchor_from_setting("bottom_right"), Anchor::BottomRight);
    assert_eq!(anchor_from_setting("anything else"), Anchor::BottomRight);
}

#[test]
fn bottom_right_first_toast_position() {
    let (x, y) = calculate_notification_position(Anchor::BottomRight, wa(), 0);
    assert_eq!(x, 1920 - 380 - 10);
    assert_eq!(y, 1040 - 140 - 10);
}

#[test]
fn bottom_right_second_toast_stacks_upward() {
    let (_, y0) = calculate_notification_position(Anchor::BottomRight, wa(), stack_offset(0));
    let (_, y1) = calculate_notification_position(Anchor::BottomRight, wa(), stack_offset(1));
    assert_eq!(y0 - y1, 150);
}

#[test]
fn top_left_first_toast_position() {
    let (x, y) = calculate_notification_position(Anchor::TopLeft, wa(), 0);
    assert_eq!(x, 10);
    assert_eq!(y, 10);
}

#[test]
fn top_anchor_stacks_downward() {
    let (_, y0) = calculate_notification_position(Anchor::TopRight, wa(), stack_offset(0));
    let (_, y1) = calculate_notification_position(Anchor::TopRight, wa(), stack_offset(1));
    assert_eq!(y1 - y0, 150);
}

#[test]
fn overflow_clamps_one_toast_extent_off_screen() {
    let area = wa();
    let (_, y) = calculate_notification_position(Anchor::BottomRight, area, stack_offset(1000));
    assert_eq!(y, area.y - NOTIFICATION_HEIGHT - NOTIFICATION_MARGIN);
    let (_, y_top) = calculate_notification_position(Anchor::TopLeft, area, stack_offset(1000));
    assert_eq!(
        y_top,
        area.y + area.height + NOTIFICATION_HEIGHT + NOTIFICATION_MARGIN
    );
}

#[test]
fn monitor_setting_selects_work_area() {
    let primary = wa();
    let second = WorkArea {
        x: 1920,
        y: 0,
        width: 2560,
        height: 1400,
    };
    let monitors = vec![primary, second];
    assert_eq!(get_monitor_work_area("primary", &monitors, primary), primary);
    assert_eq!(get_monitor_work_area("", &monitors, primary), primary);
    assert_eq!(get_monitor_work_area("0", &monitors, primary), primary);
    assert_eq!(get_monitor_work_area("1", &monitors, primary), second);
    assert_eq!(get_monitor_work_area("2", &monitors, primary), primary);
    assert_eq!(get_monitor_work_area("left", &monitors, primary), primary);
}

#[test]
fn monitor_origin_shifts_positions() {
    let area = WorkArea {
        x: -1920,
        y: 200,
        width: 1920,
        height: 1040,
    };
    let (x, y) = calculate_notification_position(Anchor::BottomRight, area, 0);
    assert_eq!(x, -1920 + 1920 - 380 - 10);
    assert_eq!(y, 200 + 1040 - 140 - 10);
}

#[test]
fn stack_positions_covers_whole_stack() {
    let area = wa();
    let all = stack_positions(3, Anchor::BottomRight, area);
    assert_eq!(all.len(), 3);
    for (i, pos) in all.iter().enumerate() {
        let single =
            calculate_notification_position(Anchor::BottomRight, area, stack_offset(i));
        assert_eq!(*pos, single);
    }
    assert_eq!(all[0].1 - all[1].1, 150);
    assert_eq!(all[1].1 - all[2].1, 150);
}
