use chrono::Datelike;
use chrono::NaiveDate;
use swap_history::calendar::timestamp_of;
use swap_history::calendar::window_of;
use swap_history::calendar::Day;
use swap_history::calendar::MAX_YEAR;
use swap_history::calendar::MIN_YEAR;
use swap_history::calendar::SECONDS_PER_DAY;

fn day(year: i32, month: u32, day: u32) -> Day {
    Day::new(year, month, day).unwrap()
}

fn is_leap(year: i64) -> bool {
    year % 4 == 0 && (year % 100 != 0 || year % 400 == 0)
}

fn days_before_year(year: i64) -> i64 {
    let y = year - 1;
    365 * y + y / 4 - y / 100 + y / 400
}

fn days_before_month(year: i64, month: i64) -> i64 {
    let table = [0, 31, 59, 90, 120, 151, 181, 212, 243, 273, 304, 334];
    let common = table[(month - 1) as usize];
    if month > 2 && is_leap(year) {
        common + 1
    } else {
        common
    }
}

fn days_from_epoch(year: i64, month: i64, day: i64) -> i64 {
    days_before_year(year) - days_before_year(1970) + days_before_month(year, month) + day - 1
}

#[test]
fn new_accepts_the_days_of_the_calendar() {
    let made = Day::new(2020, 5, 17).unwrap();
    assert_eq!(made.year(), 2020);
    assert_eq!(made.month(), 5);
    assert_eq!(made.day(), 17);
    assert!(Day::new(2020, 2, 29).is_some());
    assert!(Day::new(2000, 2, 29).is_some());
    assert!(Day::new(2021, 12, 31).is_some());
    assert!(Day::new(MIN_YEAR, 1, 1).is_some());
    assert!(Day::new(MAX_YEAR, 12, 31).is_some());
}

#[test]
fn new_rejects_what_the_calendar_lacks() {
    assert!(Day::new(2021, 2, 29).is_none());
    assert!(Day::new(1900, 2, 29).is_none());
    assert!(Day::new(2020, 2, 30).is_none());
    assert!(Day::new(2020, 4, 31).is_none());
    assert!(Day::new(2020, 0, 1).is_none());
    assert!(Day::new(2020, 13, 1).is_none());
    assert!(Day::new(2020, 1, 0).is_none());
    assert!(Day::new(2020, 1, 32).is_none());
    assert!(Day::new(0, 1, 1).is_none());
    assert!(Day::new(-1, 1, 1).is_none());
    assert!(Day::new(10_000, 1, 1).is_none());
}

#[test]
fn new_agrees_with_chrono_on_every_triple_of_some_years() {
    for year in [1, 4, 100, 400, 1900, 1999, 2000, 2020, 2021, 2100, 9999] {
        for month in 0..14u32 {
            for d in 0..33u32 {
                assert_eq!(
                    Day::new(year, month, d).is_some(),
                    NaiveDate::from_ymd_opt(year, month, d).is_some(),
                    "{}-{}-{}",
                    year,
                    month,
                    d
                );
            }
        }
    }
}

#[test]
fn timestamp_of_known_days() {
    assert_eq!(timestamp_of(day(1970, 1, 1)), 0);
    assert_eq!(timestamp_of(day(1970, 1, 2)), 86_400);
    assert_eq!(timestamp_of(day(1969, 12, 31)), -86_400);
    assert_eq!(timestamp_of(day(2020, 5, 17)), 1_589_673_600);
    assert_eq!(timestamp_of(day(2020, 5, 18)), 1_589_760_000);
    assert_eq!(timestamp_of(day(2000, 3, 1)), 951_868_800);
    assert_eq!(timestamp_of(day(1, 1, 1)), -719_162 * 86_400);
    assert_eq!(timestamp_of(day(9999, 12, 31)), 2_932_896 * 86_400);
}

#[test]
fn window_of_a_day_lasts_one_day() {
    assert_eq!(window_of(day(2020, 5, 17)), (1_589_673_600, 1_589_760_000));
    assert_eq!(window_of(day(1970, 1, 1)), (0, SECONDS_PER_DAY));
    let last = day(9999, 12, 31);
    assert_eq!(window_of(last), (timestamp_of(last), timestamp_of(last) + 86_400));
}

#[test]
fn windows_of_following_days_abut() {
    let mut current = day(2019, 12, 25);
    for _ in 0..800 {
        let next = current.succ().unwrap();
        assert_eq!(window_of(current).1, window_of(next).0);
        assert_eq!(timestamp_of(next), timestamp_of(current) + SECONDS_PER_DAY);
        current = next;
    }
}

#[test]
fn succ_steps_over_the_ends_of_months_and_years() {
    assert_eq!(day(2020, 5, 17).succ(), Some(day(2020, 5, 18)));
    assert_eq!(day(2020, 5, 31).succ(), Some(day(2020, 6, 1)));
    assert_eq!(day(2020, 4, 30).succ(), Some(day(2020, 5, 1)));
    assert_eq!(day(2020, 2, 28).succ(), Some(day(2020, 2, 29)));
    assert_eq!(day(2020, 2, 29).succ(), Some(day(2020, 3, 1)));
    assert_eq!(day(2021, 2, 28).succ(), Some(day(2021, 3, 1)));
    assert_eq!(day(1900, 2, 28).succ(), Some(day(1900, 3, 1)));
    assert_eq!(day(2000, 2, 28).succ(), Some(day(2000, 2, 29)));
    assert_eq!(day(2020, 12, 31).succ(), Some(day(2021, 1, 1)));
    assert_eq!(day(9999, 12, 30).succ(), Some(day(9999, 12, 31)));
}

#[test]
fn succ_of_the_last_day_is_none() {
    assert_eq!(day(9999, 12, 31).succ(), None);
}

#[test]
fn every_day_follows_the_stated_calendar() {
    let mut current = day(1, 1, 1);
    let mut number = -719_162i64;
    let mut count = 0u32;
    loop {
        let expected = days_from_epoch(
            current.year() as i64,
            current.month() as i64,
            current.day() as i64,
        );
        assert_eq!(expected, number);
        assert_eq!(timestamp_of(current), 86_400 * number);
        count += 1;
        match current.succ() {
            Some(next) => {
                assert!(current.is_before(&next));
                assert!(!next.is_before(&current));
                assert!(current < next);
                current = next;
                number += 1;
            }
            None => break,
        }
    }
    assert_eq!(current, day(9999, 12, 31));
    assert_eq!(number, 2_932_896);
    assert_eq!(count, 3_652_059);
}

#[test]
fn succ_agrees_with_chrono() {
    let mut ours = day(1999, 12, 1);
    let mut theirs = NaiveDate::from_ymd_opt(1999, 12, 1).unwrap();
    for _ in 0..1600 {
        ours = ours.succ().unwrap();
        theirs = theirs.succ_opt().unwrap();
        assert_eq!((ours.year(), ours.month(), ours.day()), (theirs.year(), theirs.month(), theirs.day()));
    }
}

#[test]
fn order_is_chronological() {
    let a = day(2020, 5, 17);
    let b = day(2020, 5, 18);
    let c = day(2020, 6, 1);
    let d = day(2021, 1, 1);
    assert!(a.is_before(&b));
    assert!(b.is_before(&c));
    assert!(c.is_before(&d));
    assert!(a.is_before(&d));
    assert!(!b.is_before(&a));
    assert!(!a.is_before(&a));
    assert!(!d.is_before(&c));
    assert!(a.is_on_or_before(&a));
    assert!(a.is_on_or_before(&b));
    assert!(!b.is_on_or_before(&a));
    assert!(day(2019, 12, 31).is_before(&day(2020, 1, 1)));
    assert!(!day(2020, 1, 31).is_before(&day(2019, 12, 1)));
    assert!(day(2020, 1, 31).is_before(&day(2020, 2, 1)));
}

#[test]
fn derived_order_is_the_order_of_is_before() {
    let days = [day(2019, 12, 31), day(2020, 1, 1), day(2020, 1, 31), day(2020, 2, 1), day(2021, 1, 1)];
    for a in days.iter() {
        for b in days.iter() {
            assert_eq!(a < b, a.is_before(b));
            assert_eq!(a <= b, a.is_on_or_before(b));
        }
    }
}

#[test]
fn date_path_pads_with_zeros() {
    assert_eq!(day(2020, 5, 17).date_path(), "2020/05/17");
    assert_eq!(day(2020, 12, 1).date_path(), "2020/12/01");
    assert_eq!(day(1, 1, 1).date_path(), "0001/01/01");
    assert_eq!(day(987, 10, 31).date_path(), "0987/10/31");
    assert_eq!(day(9999, 12, 31).date_path(), "9999/12/31");
}

#[test]
fn month_path_names_year_and_month() {
    assert_eq!(day(2020, 5, 17).month_path(), "2020/05");
    assert_eq!(day(2020, 11, 30).month_path(), "2020/11");
    assert_eq!(day(45, 2, 3).month_path(), "0045/02");
}

#[test]
fn date_path_is_ten_characters_of_the_parts() {
    let mut current = day(1995, 1, 1);
    for _ in 0..3000 {
        let text = current.date_path();
        assert_eq!(text.len(), 10);
        assert_eq!(text, format!("{:04}/{:02}/{:02}", current.year(), current.month(), current.day()));
        assert_eq!(current.month_path(), format!("{:04}/{:02}", current.year(), current.month()));
        current = current.succ().unwrap();
    }
}
