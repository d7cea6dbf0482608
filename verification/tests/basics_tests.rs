use borrowck::rect::Rectangle;
use borrowck::user::{build_user, build_user_field_init_shorthand};
use borrowck::words::first_word;

#[test]
fn area_multiplies_the_sides() {
    let rect = Rectangle { width: 30, height: 50 };
    assert_eq!(rect.area(), 1500);
}

#[test]
fn width_reports_nonzero_width() {
    assert!(Rectangle { width: 30, height: 50 }.width());
    assert!(!Rectangle { width: 0, height: 50 }.width());
}

#[test]
fn can_hold_needs_strictly_larger_sides() {
    let rect1 = Rectangle { width: 30, height: 50 };
    let rect2 = Rectangle { width: 10, height: 40 };
    let rect3 = Rectangle { width: 60, height: 45 };
    assert!(rect1.can_hold(&rect2));
    assert!(!rect1.can_hold(&rect3));
    assert!(!rect2.can_hold(&rect1));
}

#[test]
fn square_has_equal_sides() {
    let sq = Rectangle::square(3);
    assert_eq!(sq.width, 3);
    assert_eq!(sq.height, 3);
    assert_eq!(sq.area(), 9);
}

#[test]
fn build_user_fills_every_field() {
    let u = build_user(
        String::from("someone@example.com"),
        String::from("someusername123"),
    );
    assert!(u.active);
    assert_eq!(u.sign_in_count, 1);
    assert_eq!(u.email, "someone@example.com");
    assert_eq!(u.username, "someusername123");
}

#[test]
fn shorthand_builder_matches_the_plain_one() {
    let a = build_user(String::from("a@b.c"), String::from("n"));
    let b = build_user_field_init_shorthand(String::from("a@b.c"), String::from("n"));
    assert_eq!(a.email, b.email);
    assert_eq!(a.username, b.username);
    assert_eq!(a.active, b.active);
    assert_eq!(a.sign_in_count, b.sign_in_count);
}

#[test]
fn first_word_stops_at_the_first_space() {
    let s = String::from("hello world");
    assert_eq!(first_word(&s), "hello");
}

#[test]
fn first_word_takes_the_whole_string_without_spaces() {
    let s = String::from("hello");
    assert_eq!(first_word(&s), "hello");
}

#[test]
fn first_word_of_empty_string_is_empty() {
    let s = String::new();
    assert_eq!(first_word(&s), "");
}

#[test]
fn first_word_of_leading_space_is_empty() {
    let s = String::from(" lead");
    assert_eq!(first_word(&s), "");
}
