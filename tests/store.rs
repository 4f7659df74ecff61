use protohackers::frame::Message;
use protohackers::session::Session;

#[test]
fn mean_of_three_prices() {
    let mut s = Session::new();
    s.insert(1, 101);
    s.insert(2, 102);
    s.insert(3, 100);
    assert_eq!(s.get_mean(1, 3), 101);
}

#[test]
fn scenario_range_excludes_outside_entry() {
    let mut s = Session::new();
    s.insert(12345, 101);
    s.insert(12346, 102);
    s.insert(12347, 100);
    s.insert(40960, 5);
    assert_eq!(s.get_mean(12288, 16384), 101);
    assert_eq!(s.get_mean(12288, 40960), 77);
}

#[test]
fn scenario_empty_store() {
    let s = Session::new();
    assert_eq!(s.get_mean(12288, 16384), 0);
    assert_eq!(s.get_mean(i32::MIN, i32::MAX), 0);
    assert_eq!(s.get_mean(5, 5), 0);
}

#[test]
fn empty_range_in_filled_store() {
    let mut s = Session::new();
    s.insert(10, 7);
    s.insert(20, 9);
    assert_eq!(s.get_mean(11, 19), 0);
}

#[test]
fn reversed_range_is_zero() {
    let mut s = Session::new();
    s.insert(1, 100);
    s.insert(2, 200);
    assert_eq!(s.get_mean(2, 1), 0);
    assert_eq!(s.get_mean(i32::MAX, i32::MIN), 0);
}

#[test]
fn overwrite_keeps_latest_price() {
    let mut s = Session::new();
    s.insert(7, 10);
    s.insert(7, 30);
    assert_eq!(s.get_mean(7, 7), 30);
    s.insert(8, 40);
    assert_eq!(s.get_mean(0, 100), 35);
}

#[test]
fn truncation_toward_zero() {
    let mut s = Session::new();
    s.insert(1, 1);
    s.insert(2, 2);
    assert_eq!(s.get_mean(1, 2), 1);
    let mut n = Session::new();
    n.insert(1, -1);
    n.insert(2, -2);
    assert_eq!(n.get_mean(1, 2), -1);
    let mut m = Session::new();
    m.insert(1, -3);
    m.insert(2, -4);
    m.insert(3, 0);
    assert_eq!(m.get_mean(1, 3), -2);
}

#[test]
fn negative_and_positive_timestamps_order() {
    let mut s = Session::new();
    s.insert(-2_000_000_000, 11);
    s.insert(2_000_000_000, 22);
    assert_eq!(s.get_mean(-2_000_000_001, -1_999_999_999), 11);
    assert_eq!(s.get_mean(1_999_999_999, 2_000_000_001), 22);
    assert_eq!(s.get_mean(-2_000_000_000, 2_000_000_000), 16);
}

#[test]
fn wide_sum_does_not_overflow() {
    let mut s = Session::new();
    for t in 0..1000 {
        s.insert(t, i32::MAX);
    }
    assert_eq!(s.get_mean(0, 999), i32::MAX);
    let mut n = Session::new();
    for t in 0..1000 {
        n.insert(t, i32::MIN);
    }
    assert_eq!(n.get_mean(i32::MIN, i32::MAX), i32::MIN);
}

#[test]
fn handle_replies() {
    let mut s = Session::new();
    assert!(s.handle(Message::Insert { timestamp: 1, price: -256 }).is_empty());
    assert_eq!(s.handle(Message::Query { start: 0, end: 1 }), vec![0xff, 0xff, 0xff, 0x00]);
    assert_eq!(s.handle(Message::Invalid), b"undefined behavior".to_vec());
}
