use tinyget::{deadline_at, read_budget, ReadBudget, NANOS_PER_SEC};

#[test]
fn past_deadline_expires_without_reading() {
    assert_eq!(read_budget(Some(100), 200), ReadBudget::Expired);
    assert_eq!(read_budget(Some(200), 200), ReadBudget::Expired);
}

#[test]
fn future_deadline_gives_remaining_time() {
    assert_eq!(read_budget(Some(500), 200), ReadBudget::Remaining(300));
}

#[test]
fn no_deadline_is_unbounded() {
    assert_eq!(read_budget(None, 12345), ReadBudget::Unbounded);
}

#[test]
fn deadline_from_timeout() {
    assert_eq!(deadline_at(7, Some(2)), Some(7 + 2 * NANOS_PER_SEC));
    assert_eq!(deadline_at(7, None), None);
    assert_eq!(deadline_at(u64::MAX - 1, Some(1)), Some(u64::MAX));
}
