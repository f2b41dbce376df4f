use tetris::alerts::{
    generate_alert_for_filled_lines, generate_alert_for_t_spin, AlertDisplay, ALERT_LIFETIME,
};
use tetris::grid::Vec2;

#[test]
fn line_rewards() {
    assert_eq!(generate_alert_for_filled_lines(0), None);
    assert_eq!(generate_alert_for_filled_lines(1), Some((100, String::from("Single!"))));
    assert_eq!(generate_alert_for_filled_lines(2), Some((300, String::from("Double!"))));
    assert_eq!(generate_alert_for_filled_lines(3), Some((500, String::from("Triple!"))));
    assert_eq!(generate_alert_for_filled_lines(4), Some((800, String::from("Tetris!"))));
}

#[test]
fn t_spin_rewards() {
    assert_eq!(generate_alert_for_t_spin(0), Some((400, String::from("T-Spin!"))));
    assert_eq!(generate_alert_for_t_spin(1), Some((800, String::from("T-Spin Single!"))));
    assert_eq!(generate_alert_for_t_spin(2), Some((1200, String::from("T-Spin Double!"))));
    assert_eq!(generate_alert_for_t_spin(3), Some((1600, String::from("T-Spin Triple!"))));
}

#[test]
fn lifetime_is_twenty_frames() {
    assert_eq!(ALERT_LIFETIME, 20);
}

#[test]
fn new_display_is_empty() {
    let display = AlertDisplay::new(Vec2::new(12, 7));
    assert_eq!(display.pos(), Vec2::new(12, 7));
    assert!(display.messages().is_empty());
}

#[test]
fn default_display_sits_at_the_origin() {
    let display = AlertDisplay::default();
    assert_eq!(display.pos(), Vec2::new(0, 0));
    assert!(display.messages().is_empty());
}

#[test]
fn push_keeps_insertion_order() {
    let mut display = AlertDisplay::new(Vec2::new(0, 0));
    display.push("first");
    display.push("second");
    assert_eq!(display.messages(), vec![String::from("first"), String::from("second")]);
}

#[test]
fn message_expires_after_its_lifetime() {
    let mut display = AlertDisplay::new(Vec2::new(0, 0));
    display.push("Single!");
    for _ in 0..19 {
        display.frame();
        assert_eq!(display.messages(), vec![String::from("Single!")]);
    }
    display.frame();
    assert!(display.messages().is_empty());
    display.frame();
    assert!(display.messages().is_empty());
}

#[test]
fn messages_age_independently() {
    let mut display = AlertDisplay::new(Vec2::new(0, 0));
    display.push("old");
    for _ in 0..5 {
        display.frame();
    }
    display.push("new");
    for _ in 0..14 {
        display.frame();
    }
    assert_eq!(display.messages(), vec![String::from("old"), String::from("new")]);
    display.frame();
    assert_eq!(display.messages(), vec![String::from("new")]);
    for _ in 0..4 {
        display.frame();
        assert_eq!(display.messages(), vec![String::from("new")]);
    }
    display.frame();
    assert!(display.messages().is_empty());
}

#[test]
fn messages_pushed_together_expire_together() {
    let mut display = AlertDisplay::new(Vec2::new(0, 0));
    display.push("a");
    display.push("b");
    display.push("c");
    for _ in 0..19 {
        display.frame();
    }
    assert_eq!(display.messages().len(), 3);
    display.frame();
    assert!(display.messages().is_empty());
}

#[test]
fn handle_with_score_takes_a_reward() {
    let mut display = AlertDisplay::new(Vec2::new(0, 0));
    let mut score: i64 = 40;
    display.handle_with_score(&mut score, Some((300, String::from("Double!"))));
    assert_eq!(score, 340);
    assert_eq!(display.messages(), vec![String::from("Double!")]);
}

#[test]
fn handle_with_score_passes_over_nothing() {
    let mut display = AlertDisplay::new(Vec2::new(0, 0));
    let mut score: i64 = 40;
    display.handle_with_score(&mut score, None);
    assert_eq!(score, 40);
    assert!(display.messages().is_empty());
}

#[test]
fn special_move_wins_over_line_clear() {
    let mut display = AlertDisplay::new(Vec2::new(0, 0));
    let mut score: i64 = 0;
    display.priorised_alerts_with_score(
        &[generate_alert_for_t_spin(3), generate_alert_for_filled_lines(4)],
        &mut score,
    );
    assert_eq!(score, 1600);
    assert_eq!(display.messages(), vec![String::from("T-Spin Triple!")]);
}

#[test]
fn line_clear_counts_without_special_move() {
    let mut display = AlertDisplay::new(Vec2::new(0, 0));
    let mut score: i64 = 7;
    display.priorised_alerts_with_score(&[None, generate_alert_for_filled_lines(4)], &mut score);
    assert_eq!(score, 807);
    assert_eq!(display.messages(), vec![String::from("Tetris!")]);
}

#[test]
fn no_candidate_no_reward() {
    let mut display = AlertDisplay::new(Vec2::new(0, 0));
    let mut score: i64 = 7;
    display.priorised_alerts_with_score(&[None, None], &mut score);
    assert_eq!(score, 7);
    assert!(display.messages().is_empty());
    display.priorised_alerts_with_score(&[], &mut score);
    assert_eq!(score, 7);
    assert!(display.messages().is_empty());
}

#[test]
fn only_the_first_of_many_candidates_is_taken() {
    let mut display = AlertDisplay::new(Vec2::new(0, 0));
    let mut score: i64 = 0;
    display.priorised_alerts_with_score(
        &[
            None,
            Some((5, String::from("five"))),
            Some((70, String::from("seventy"))),
            None,
            Some((900, String::from("nine hundred"))),
        ],
        &mut score,
    );
    assert_eq!(score, 5);
    assert_eq!(display.messages(), vec![String::from("five")]);
}
