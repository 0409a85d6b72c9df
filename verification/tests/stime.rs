use work_tock::err::ErrType;
use work_tock::moment::{Moment, STime};
use work_tock::date::Date;

#[test]
pub fn moment_test_stime_parse() {
    assert!("243430343090349309309430334390:54"
        .parse::<STime>()
        .is_err());
    assert_eq!("24:54".parse(), Ok(STime::new(24, 54)));
}

#[test]
pub fn s_time_test_stime_parse() {
    assert!("243430343090349309309430334390:54"
        .parse::<STime>()
        .is_err());
    assert_eq!("24:54".parse(), Ok(STime::new(24, 54)));
}

#[test]
fn stime_parse_missing_minutes() {
    assert_eq!(STime::parse("24"), Err(ErrType::MissingItem));
}

#[test]
fn stime_parse_minutes_over_60() {
    assert_eq!(STime::parse("9:75"), Err(ErrType::MinutesOver60));
}

#[test]
fn stime_parse_not_a_number() {
    assert_eq!(STime::parse("x:30"), Err(ErrType::NotANumber));
    assert_eq!(STime::parse(":30"), Err(ErrType::NotANumber));
}

#[test]
fn stime_parse_ignores_third_part() {
    assert_eq!(STime::parse("9:30:45"), Ok(STime::new(9, 30)));
}

#[test]
fn stime_arithmetic() {
    let a = STime::new(9, 0);
    let b = STime::new(1, 30);
    assert_eq!(a.plus(b), STime::new(10, 30));
    assert_eq!(a.minus(b), STime::new(7, 30));
    assert_eq!(b.earlier(a), STime::new(0, 0));
    assert_eq!(a.earlier(b), STime::new(7, 30));
}

#[test]
fn stime_since_spans_days() {
    let then_date = Date { year: 1970, month: 1, day: 1 };
    let now_date = Date { year: 1970, month: 1, day: 2 };
    let now_time = STime::new(1, 0);
    let then_time = STime::new(23, 0);
    assert_eq!(
        now_time.since(&now_date, then_time, &then_date),
        STime::new(2, 0)
    );
}

#[test]
fn stime_to_hhmm_pads() {
    assert_eq!(STime::new(9, 5).to_hhmm(), "09:05");
    assert_eq!(STime::new(26, 30).to_hhmm(), "26:30");
    assert_eq!(STime::new(100, 0).to_hhmm(), "100:00");
    assert_eq!(STime::new(0, 0).to_hhmm(), "00:00");
}

#[test]
fn stime_ordering() {
    assert!(STime::new(9, 0) < STime::new(9, 1));
    assert!(STime::new(10, 0) > STime::new(9, 59));
}

#[test]
fn moment_ordering_by_date_then_time() {
    let early = Moment {
        d: Date { year: 2024, month: 3, day: 1 },
        t: STime::new(23, 0),
    };
    let late = Moment {
        d: Date { year: 2024, month: 3, day: 2 },
        t: STime::new(1, 0),
    };
    assert!(early < late);
    let same_day = Moment {
        d: Date { year: 2024, month: 3, day: 1 },
        t: STime::new(9, 0),
    };
    assert!(same_day < early);
}

#[test]
fn moment_time_since() {
    let prev = Moment {
        d: Date { year: 2024, month: 2, day: 29 },
        t: STime::new(22, 0),
    };
    let now = Moment {
        d: Date { year: 2024, month: 3, day: 1 },
        t: STime::new(2, 0),
    };
    assert_eq!(now.time_since(&prev), STime::new(4, 0));
}

#[test]
fn moment_print_relative() {
    let now = Moment {
        d: Date { year: 2024, month: 3, day: 2 },
        t: STime::new(12, 0),
    };
    let today = Moment {
        d: Date { year: 2024, month: 3, day: 2 },
        t: STime::new(9, 30),
    };
    let yesterday = Moment {
        d: Date { year: 2024, month: 3, day: 1 },
        t: STime::new(9, 30),
    };
    let older = Moment {
        d: Date { year: 2024, month: 2, day: 1 },
        t: STime::new(9, 30),
    };
    assert_eq!(today.print_relative(&now), "today : 09:30");
    assert_eq!(yesterday.print_relative(&now), "yesterday : 09:30");
    assert_eq!(older.print_relative(&now), "01/02/2024 : 09:30");
}
