use work_tock::date::{
    days_in_month, is_leap_year, minus_days, next_day, plus_days, prev_day, weekday_mon0, Date,
};
use work_tock::err::{ClockErrType, ErrType};
use work_tock::moment::{
    date_from_str, month_yr_from_str, next_month_start, prev_month_start, week_yr_from_str, STime,
};
use work_tock::reader::ClockStore;

#[test]
fn one_finished_clock_aggregates() {
    // a year, a short date, a job, a clock-in and a clock-out
    let mut cs = ClockStore::new();
    let rs = cs.read("year=2024\n1/3\n\tjobA,9:00\n  -17:00\n").unwrap();
    assert!(rs.curr_in.is_none());
    assert_eq!(rs.year, Some(2024));
    assert_eq!(rs.date, Some(Date { year: 2024, month: 3, day: 1 }));
    assert_eq!(rs.job, Some("jobA".to_string()));
    assert_eq!(cs.clocks.len(), 1);
    let c = &cs.clocks[0];
    assert_eq!(c.c_in.d, Date { year: 2024, month: 3, day: 1 });
    assert_eq!(c.c_in.t, STime::new(9, 0));
    assert_eq!(c.c_out, STime::new(17, 0));
    assert_eq!(c.job, "jobA");
    let map = cs.as_time_map().unwrap();
    assert_eq!(map.len(), 1);
    assert_eq!(map.get("jobA"), Some(STime::new(8, 0)));
}

#[test]
fn second_clockin_closes_the_first() {
    // switching jobs with a bare clock-in produces exactly one finished
    // record whose clock-out is the second clock-in's time
    let mut cs = ClockStore::new();
    let rs = cs.read("1/3/2024\n\tjobA,9:00\n\tjobB,13:00\n  -17:00\n").unwrap();
    assert!(rs.curr_in.is_none());
    assert_eq!(cs.clocks.len(), 2);
    assert_eq!(cs.clocks[0].job, "jobA");
    assert_eq!(cs.clocks[0].c_in.t, STime::new(9, 0));
    assert_eq!(cs.clocks[0].c_out, STime::new(13, 0));
    assert_eq!(cs.clocks[1].job, "jobB");
    assert_eq!(cs.clocks[1].c_in.t, STime::new(13, 0));
    assert_eq!(cs.clocks[1].c_out, STime::new(17, 0));
    let map = cs.as_time_map().unwrap();
    assert_eq!(map.len(), 2);
    assert_eq!(map.get("jobA"), Some(STime::new(4, 0)));
    assert_eq!(map.get("jobB"), Some(STime::new(4, 0)));
}

#[test]
fn out_before_in_fails_at_aggregation() {
    // the inverted record parses fine and only the sum rejects it
    let mut cs = ClockStore::new();
    let rs = cs.read("1/3/2024\n\tjobA,9:00\n  -8:00\n").unwrap();
    assert!(rs.curr_in.is_none());
    assert_eq!(cs.clocks.len(), 1);
    let err = cs.as_time_map().unwrap_err();
    assert!(matches!(err.etype, ClockErrType::OutBeforeIn));
    assert_eq!(err.clock.job, "jobA");
    assert_eq!(err.clock.c_in.t, STime::new(9, 0));
    assert_eq!(err.clock.c_out, STime::new(8, 0));
}

#[test]
fn group_definition_is_stored() {
    let mut cs = ClockStore::new();
    cs.read("$team[alice,bob,alice]").unwrap();
    assert_eq!(cs.groups.len(), 1);
    assert_eq!(cs.groups[0].name, "team");
    assert_eq!(
        cs.groups[0].members,
        vec!["alice".to_string(), "bob".to_string(), "alice".to_string()]
    );
}

#[test]
fn short_date_requires_year() {
    let mut cs = ClockStore::new();
    assert_eq!(cs.read("1/3\n").unwrap_err().etype, ErrType::YearNotSet);
}

#[test]
fn short_date_matches_long_date() {
    // with the year set, DD/MM resolves to the same date as DD/MM/YYYY
    let mut cs = ClockStore::new();
    let short = cs.read("year=2024\n5/6").unwrap();
    let mut cs2 = ClockStore::new();
    let long = cs2.read("5/6/2024").unwrap();
    assert_eq!(short.date, long.date);
    assert_eq!(short.date, Some(Date { year: 2024, month: 6, day: 5 }));
}

#[test]
fn invalid_date_is_rejected() {
    let mut cs = ClockStore::new();
    assert_eq!(
        cs.read("31/2/2024").unwrap_err().etype,
        ErrType::DateNotValid
    );
}

#[test]
fn clockin_needs_date_and_job() {
    let mut cs = ClockStore::new();
    assert_eq!(cs.read("9:00").unwrap_err().etype, ErrType::DateNotSet);
    let mut cs = ClockStore::new();
    assert_eq!(
        cs.read("1/3/2024\n9:00").unwrap_err().etype,
        ErrType::JobNotSet
    );
}

#[test]
fn clockout_needs_open_clockin() {
    let mut cs = ClockStore::new();
    let err = cs.read("-9:00").unwrap_err();
    assert_eq!(err.etype, ErrType::ClockinNotSet);
    assert_eq!((err.line, err.col), (1, 2));
}

#[test]
fn open_clockin_is_returned_in_state() {
    let mut cs = ClockStore::new();
    let rs = cs.read("1/3/2024\njobA,9:00").unwrap();
    assert_eq!(cs.clocks.len(), 0);
    let open = rs.curr_in.expect("clock-in should still be open");
    assert_eq!(open.c_in.t, STime::new(9, 0));
    assert_eq!(open.job, "jobA");
}

#[test]
fn tags_are_a_set_in_order() {
    // setting a tag twice keeps one copy; clears remove them
    let mut cs = ClockStore::new();
    let rs = cs.read("_home,_home,_deep").unwrap();
    assert_eq!(rs.tags, vec!["home".to_string(), "deep".to_string()]);
    let mut cs = ClockStore::new();
    let rs = cs.read("_home,_deep,__home").unwrap();
    assert_eq!(rs.tags, vec!["deep".to_string()]);
    let mut cs = ClockStore::new();
    let rs = cs.read("_home,_deep,__,__home").unwrap();
    assert_eq!(rs.tags, Vec::<String>::new());
}

#[test]
fn tags_snapshot_into_clocks() {
    let mut cs = ClockStore::new();
    cs.read("1/3/2024\n_home\njobA,9:00\n__\n-10:00").unwrap();
    assert_eq!(cs.clocks.len(), 1);
    assert_eq!(cs.clocks[0].tags, vec!["home".to_string()]);
}

#[test]
fn comments_and_commas_separate_actions() {
    let mut cs = ClockStore::new();
    let rs = cs.read("# header\nyear=2024 # inline\n1/3,jobA").unwrap();
    assert_eq!(rs.year, Some(2024));
    assert_eq!(rs.job, Some("jobA".to_string()));
}

#[test]
fn calendar_rules() {
    assert!(is_leap_year(2024));
    assert!(is_leap_year(2000));
    assert!(!is_leap_year(1900));
    assert!(!is_leap_year(2023));
    assert_eq!(days_in_month(2024, 2), 29);
    assert_eq!(days_in_month(2023, 2), 28);
    assert_eq!(days_in_month(2024, 4), 30);
    assert_eq!(days_in_month(2024, 12), 31);
    assert!(Date::from_ymd_opt(2024, 2, 29).is_some());
    assert!(Date::from_ymd_opt(2023, 2, 29).is_none());
    assert!(Date::from_ymd_opt(2024, 0, 1).is_none());
    assert!(Date::from_ymd_opt(2024, 13, 1).is_none());
}

#[test]
fn day_numbers_count_from_epoch() {
    assert_eq!(Date { year: 1970, month: 1, day: 1 }.day_number(), 0);
    assert_eq!(Date { year: 1970, month: 1, day: 2 }.day_number(), 1);
    assert_eq!(Date { year: 1969, month: 12, day: 31 }.day_number(), -1);
    let feb29 = Date { year: 2024, month: 2, day: 29 }.day_number();
    let mar1 = Date { year: 2024, month: 3, day: 1 }.day_number();
    assert_eq!(mar1 - feb29, 1);
    let feb28 = Date { year: 2023, month: 2, day: 28 }.day_number();
    let mar1 = Date { year: 2023, month: 3, day: 1 }.day_number();
    assert_eq!(mar1 - feb28, 1);
    // 2000-01-01 is 30 years after the epoch, 7 of them leap years
    assert_eq!(
        Date { year: 2000, month: 1, day: 1 }.day_number(),
        30 * 365 + 7
    );
}

#[test]
fn date_strings() {
    assert_eq!(
        date_from_str("1/2/2024", None),
        Ok(Date { year: 2024, month: 2, day: 1 })
    );
    assert_eq!(
        date_from_str("1/2", Some(2023)),
        Ok(Date { year: 2023, month: 2, day: 1 })
    );
    assert_eq!(date_from_str("1/2", None), Err(ErrType::MissingItem));
    assert_eq!(date_from_str("31/2/2024", None), Err(ErrType::DateNotValid));
    // an unreadable year falls back to the default year
    assert_eq!(
        date_from_str("1/2/x", Some(2022)),
        Ok(Date { year: 2022, month: 2, day: 1 })
    );
    assert_eq!(date_from_str("x/2/2024", Some(2022)), Err(ErrType::NotANumber));
    assert_eq!(
        month_yr_from_str("3/2024", None),
        Ok(Date { year: 2024, month: 3, day: 1 })
    );
    assert_eq!(
        month_yr_from_str("3", Some(2021)),
        Ok(Date { year: 2021, month: 3, day: 1 })
    );
    assert_eq!(month_yr_from_str("13/2024", None), Err(ErrType::DateNotValid));
}

#[test]
fn month_range_helpers() {
    let d = Date { year: 2024, month: 5, day: 17 };
    assert_eq!(next_month_start(&d), Date { year: 2024, month: 6, day: 1 });
    assert_eq!(prev_month_start(&d), Date { year: 2024, month: 5, day: 1 });
    let dec = Date { year: 2024, month: 12, day: 3 };
    assert_eq!(next_month_start(&dec), Date { year: 2025, month: 1, day: 1 });
    assert_eq!(prev_month_start(&dec), Date { year: 2023, month: 12, day: 1 });
}

#[test]
fn reading_resumes_across_documents() {
    // a second document on the same store appends its records
    let mut cs = ClockStore::new();
    cs.read("1/3/2024\njobA,9:00\n-10:00").unwrap();
    cs.read("2/3/2024\njobB,11:00\n-12:00").unwrap();
    assert_eq!(cs.clocks.len(), 2);
    assert_eq!(cs.clocks[1].job, "jobB");
}

#[test]
fn failed_read_keeps_completed_records() {
    // the error aborts the document, but records already closed stay
    let mut cs = ClockStore::new();
    assert_eq!(
        cs.read("1/3/2024\njobA,9:00\n-10:00\n;").unwrap_err().etype,
        ErrType::NoToken
    );
    assert_eq!(cs.clocks.len(), 1);
}

#[test]
fn week_strings() {
    // ISO week 1 of 2024 starts on Monday 1 January 2024
    assert_eq!(
        week_yr_from_str("1/2024", None),
        Ok(Date { year: 2024, month: 1, day: 1 })
    );
    // ISO week 1 of 2021 starts on Monday 4 January 2021
    assert_eq!(
        week_yr_from_str("1/2021", None),
        Ok(Date { year: 2021, month: 1, day: 4 })
    );
    // ISO week 1 of 2016 reaches back into 2015
    assert_eq!(
        week_yr_from_str("1/2016", None),
        Ok(Date { year: 2016, month: 1, day: 4 })
    );
    assert_eq!(
        week_yr_from_str("53/2020", None),
        Ok(Date { year: 2020, month: 12, day: 28 })
    );
    // 2021 has no week 53
    assert_eq!(week_yr_from_str("53/2021", None), Err(ErrType::DateNotValid));
    assert_eq!(week_yr_from_str("0/2024", None), Err(ErrType::DateNotValid));
    assert_eq!(
        week_yr_from_str("10", Some(2024)),
        Ok(Date { year: 2024, month: 3, day: 4 })
    );
    assert_eq!(week_yr_from_str("10", None), Err(ErrType::MissingItem));
}

#[test]
fn weekday_and_date_steps() {
    // 1 January 1970 was a Thursday
    assert_eq!(weekday_mon0(&Date { year: 1970, month: 1, day: 1 }), 3);
    // 4 March 2024 was a Monday
    assert_eq!(weekday_mon0(&Date { year: 2024, month: 3, day: 4 }), 0);
    let d = Date { year: 2024, month: 2, day: 29 };
    assert_eq!(next_day(&d), Date { year: 2024, month: 3, day: 1 });
    assert_eq!(prev_day(&d), Date { year: 2024, month: 2, day: 28 });
    assert_eq!(
        prev_day(&Date { year: 2024, month: 1, day: 1 }),
        Date { year: 2023, month: 12, day: 31 }
    );
    assert_eq!(
        plus_days(&Date { year: 2024, month: 12, day: 30 }, 3),
        Date { year: 2025, month: 1, day: 2 }
    );
    assert_eq!(
        minus_days(&Date { year: 2024, month: 1, day: 2 }, 3),
        Date { year: 2023, month: 12, day: 30 }
    );
}

#[test]
fn time_map_keys_come_out_sorted() {
    let mut cs = ClockStore::new();
    cs.read("1/3/2024\nzeta,9:00\nalpha,10:00\nmid,11:00\n-12:00").unwrap();
    let map = cs.as_time_map().unwrap();
    assert_eq!(map.len(), 3);
    assert_eq!(map.job_at(0), "alpha");
    assert_eq!(map.job_at(1), "mid");
    assert_eq!(map.job_at(2), "zeta");
    assert_eq!(map.get("zeta"), Some(STime::new(1, 0)));
    assert_eq!(map.get("alpha"), Some(STime::new(1, 0)));
    assert_eq!(map.get("mid"), Some(STime::new(1, 0)));
    assert_eq!(map.get("nobody"), None);
}
