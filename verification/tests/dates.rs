use chore::date::{Date, Duration};

fn at(text: &str) -> Date {
    Date::from_abs(text).unwrap()
}

fn rel(text: &str, from: &str) -> Option<String> {
    Date::from_rel(text, &at(from)).map(|d| d.to_string())
}

#[test]
fn absolute_dates_take_exactly_their_digits() {
    for text in ["+001", "-001", "2001-+2", "2001-02-+3", " 2001", "2001 ", "20011", "2001-", "2001-02-03T", "２００１"] {
        assert_eq!(Date::from_abs(text), None, "{}", text);
    }
    assert_eq!(at("0000").to_string(), "0000");
    assert_eq!(at("9999-12-31T23:59:59").to_string(), "9999-12-31T23:59:59");
    assert_eq!(Date::from_abs("2001-00"), None);
    assert_eq!(Date::from_abs("2001-13"), None);
    assert_eq!(Date::from_abs("2001-01-00"), None);
    assert_eq!(Date::from_abs("2001-04-31"), None);
    assert_eq!(Date::from_abs("1900-02-29"), None);
    assert!(Date::from_abs("2000-02-29").is_some());
    assert!(Date::from_abs("2004-02-29").is_some());
    assert_eq!(Date::from_abs("2001-01-01T24"), None);
    assert_eq!(Date::from_abs("2001-01-01T23:60"), None);
}

#[test]
fn dates_are_made_from_fields_that_exist() {
    let seconds = Duration::Seconds(1);
    assert!(Date::from_fields(2001, 2, 28, 23, 59, 59, seconds).is_some());
    assert!(Date::from_fields(2001, 2, 29, 0, 0, 0, seconds).is_none());
    assert!(Date::from_fields(2001, 0, 1, 0, 0, 0, seconds).is_none());
    assert!(Date::from_fields(2001, 13, 1, 0, 0, 0, seconds).is_none());
    assert!(Date::from_fields(2001, 1, 0, 0, 0, 0, seconds).is_none());
    assert!(Date::from_fields(2001, 1, 1, 24, 0, 0, seconds).is_none());
    assert!(Date::from_fields(2001, 1, 1, 0, 60, 0, seconds).is_none());
    assert!(Date::from_fields(2001, 1, 1, 0, 0, 60, seconds).is_none());
    assert!(Date::from_fields(-262143, 1, 1, 0, 0, 0, seconds).is_some());
    assert!(Date::from_fields(-262144, 1, 1, 0, 0, 0, seconds).is_none());
    assert!(Date::from_fields(262141, 12, 31, 23, 59, 59, seconds).is_some());
    assert!(Date::from_fields(262142, 1, 1, 0, 0, 0, seconds).is_none());
    assert_eq!(
        Date::from_fields(2001, 2, 3, 4, 5, 6, Duration::Seconds(1)),
        Date::from_abs("2001-02-03T04:05:06")
    );
    assert_eq!(
        at("2001-02-03T04:05:06").with_unit(Duration::Days(1)).to_string(),
        "2001-02-03"
    );
}

#[test]
fn dates_are_written_with_leading_zeros() {
    let days = Duration::Days(1);
    assert_eq!(Date::from_fields(7, 8, 9, 0, 0, 0, days).unwrap().to_string(), "0007-08-09");
    assert_eq!(Date::from_fields(0, 1, 1, 0, 0, 0, days).unwrap().to_string(), "0000-01-01");
    assert_eq!(Date::from_fields(-7, 8, 9, 0, 0, 0, days).unwrap().to_string(), "-007-08-09");
    assert_eq!(Date::from_fields(-12345, 1, 1, 0, 0, 0, days).unwrap().to_string(), "-12345-01-01");
    assert_eq!(Date::from_fields(12345, 1, 1, 0, 0, 0, days).unwrap().to_string(), "12345-01-01");
    assert_eq!(
        Date::from_fields(2001, 2, 3, 4, 5, 6, Duration::Hours(7)).unwrap().to_string(),
        "2001-02-03T04"
    );
}

#[test]
fn seconds_carry_through_the_calendar() {
    let start = at("1999-12-31T23:59:59");
    assert_eq!(start.plus(&Duration::Seconds(1)), Some(at("2000-01-01T00:00:00")));
    assert_eq!(at("2000-01-01T00:00:00").plus(&Duration::Seconds(-1)), Some(start));
    assert_eq!(at("2000-02-28T12:00:00").plus(&Duration::Days(1)), Some(at("2000-02-29T12:00:00")));
    assert_eq!(at("1900-02-28T12:00:00").plus(&Duration::Days(1)), Some(at("1900-03-01T12:00:00")));
    assert_eq!(at("0000-01-01T00:00:00").plus(&Duration::Hours(-1)).unwrap().to_string(), "-001-12-31T23:00:00");
    assert_eq!(at("2001-02-03T04:05:06").plus(&Duration::Days(365 * 400 + 97)), Some(at("2401-02-03T04:05:06")));
    assert_eq!(at("2001-02-03").plus(&Duration::Minutes(90)).unwrap().to_string(), "2001-02-03");
    assert_eq!(at("2001-02-03").plus(&Duration::Hours(24)), Some(at("2001-02-04")));
}

#[test]
fn months_and_years_keep_the_day_where_they_can() {
    assert_eq!(at("2001-01-31").plus(&Duration::Months(1)), Some(at("2001-02-28")));
    assert_eq!(at("2000-01-31").plus(&Duration::Months(1)), Some(at("2000-02-29")));
    assert_eq!(at("2001-01-31").plus(&Duration::Months(3)), Some(at("2001-04-30")));
    assert_eq!(at("2001-03-31").plus(&Duration::Months(-1)), Some(at("2001-02-28")));
    assert_eq!(at("2001-12-15").plus(&Duration::Months(1)), Some(at("2002-01-15")));
    assert_eq!(at("2001-01-15").plus(&Duration::Months(-1)), Some(at("2000-12-15")));
    assert_eq!(at("2001-01-15").plus(&Duration::Months(-13)), Some(at("1999-12-15")));
    assert_eq!(at("0000-01-15").plus(&Duration::Months(-1)).unwrap().to_string(), "-001-12-15");
    assert_eq!(at("2004-02-29").plus(&Duration::Years(4)), Some(at("2008-02-29")));
    assert_eq!(at("2004-02-29").plus(&Duration::Years(-104)), Some(at("1900-02-28")));
}

#[test]
fn there_is_no_date_beyond_the_calendar() {
    let start = at("2001-02-03T04:05:06");
    assert_eq!(start.plus(&Duration::Years(i32::MAX)), None);
    assert_eq!(start.plus(&Duration::Years(i32::MIN)), None);
    assert_eq!(start.plus(&Duration::Years(262141 - 2001)).unwrap().to_string(), "262141-02-03T04:05:06");
    assert_eq!(start.plus(&Duration::Years(262142 - 2001)), None);
    assert_eq!(start.plus(&Duration::Years(-262143 - 2001)).unwrap().to_string(), "-262143-02-03T04:05:06");
    assert_eq!(start.plus(&Duration::Years(-262144 - 2001)), None);
    assert_eq!(start.plus(&Duration::Months(i64::MAX)), None);
    assert_eq!(start.plus(&Duration::Months(i64::MIN)), None);
    assert_eq!(start.plus(&Duration::Days(i64::MAX)), None);
    assert_eq!(start.plus(&Duration::Days(i64::MIN)), None);
    assert_eq!(start.plus(&Duration::Hours(i64::MIN)), None);
    assert_eq!(start.plus(&Duration::Minutes(i64::MAX)), None);
    assert_eq!(start.plus(&Duration::Seconds(i64::MAX)), None);
    assert_eq!(Date::from_rel("9223372036854775807w", &start), None);
    assert_eq!(Date::from_rel("-9223372036854775808W", &start), None);
    assert_eq!(Date::from_rel("9223372036854775808d", &start), None);
    let last = Date::from_fields(262141, 12, 31, 23, 59, 59, Duration::Years(1)).unwrap();
    assert_eq!(last.plus(&Duration::Seconds(1)), None);
    assert!(last.within(&last));
    assert!(!last.before(&last));
    let first = Date::from_fields(-262143, 1, 1, 0, 0, 0, Duration::Seconds(1)).unwrap();
    assert_eq!(first.plus(&Duration::Seconds(-1)), None);
    assert!(first.before(&last));
}

#[test]
fn next_time_is_at_or_after_now() {
    let start = at("2001-02-03T04:05:06");
    assert_eq!(start.next_time(4, 5, 6), Some(start));
    assert_eq!(start.next_time(4, 5, 5), Some(at("2001-02-04T04:05:05")));
    assert_eq!(start.next_time(0, 0, 0), Some(at("2001-02-04T00:00:00")));
    assert_eq!(start.next_time(23, 59, 59), Some(at("2001-02-03T23:59:59")));
    assert_eq!(start.next_time(24, 0, 0), None);
    assert_eq!(start.next_time(0, 60, 0), None);
    assert_eq!(start.next_time(0, 0, 60), None);
    assert_eq!(rel("4", "2001-02-03T04:05:06").unwrap(), "2001-02-04T04");
    assert_eq!(rel("5", "2001-02-03T04:05:06").unwrap(), "2001-02-03T05");
    assert_eq!(rel("+5", "2001-02-03T04:05:06").unwrap(), "2001-02-03T05");
    assert_eq!(rel("23", "2001-02-03").unwrap(), "2001-02-03T23");
    assert_eq!(rel("24", "2001-02-03"), None);
    assert_eq!(rel("23:59", "2001-02-28T23:59:01").unwrap(), "2001-03-01T23:59");
    assert_eq!(rel("23:59:59", "2001-12-31T23:59:59").unwrap(), "2001-12-31T23:59:59");
}

#[test]
fn names_of_days_and_months_are_read_in_any_case() {
    // 2001-02-03 is a Saturday.
    assert_eq!(rel("SUNDAY", "2001-02-03").unwrap(), "2001-02-04");
    assert_eq!(rel("mOn", "2001-02-03").unwrap(), "2001-02-05");
    assert_eq!(rel("sat", "2001-02-03T12").unwrap(), "2001-02-10");
    assert_eq!(rel("fri", "2001-02-03").unwrap(), "2001-02-09");
    assert_eq!(rel("wednesday", "2001-02-07").unwrap(), "2001-02-14");
    assert_eq!(rel("wednes", "2001-02-07"), None);
    assert_eq!(rel("wed ", "2001-02-07"), None);
    assert_eq!(rel("DECEMBER", "2001-02-03").unwrap(), "2001-12");
    assert_eq!(rel("may", "2001-02-03").unwrap(), "2001-05");
    assert_eq!(rel("feb", "2001-02-28T23:59:59").unwrap(), "2002-02");
    assert_eq!(rel("jan", "2001-12-31").unwrap(), "2002-01");
    assert_eq!(rel("sept", "2001-02-03"), None);
    assert_eq!(rel("ma", "2001-02-03"), None);
}

#[test]
fn ordinals_name_the_next_such_day() {
    assert_eq!(rel("3rd", "2001-02-03").unwrap(), "2001-03-03");
    assert_eq!(rel("4th", "2001-02-03").unwrap(), "2001-02-04");
    assert_eq!(rel("31st", "2001-01-30").unwrap(), "2001-01-31");
    // A month that lacks the day is passed over.
    assert_eq!(rel("31st", "2001-01-31").unwrap(), "2001-03-31");
    assert_eq!(rel("31st", "2001-03-31").unwrap(), "2001-05-31");
    assert_eq!(rel("31st", "2001-07-31").unwrap(), "2001-08-31");
    assert_eq!(rel("31st", "2001-12-31").unwrap(), "2002-01-31");
    assert_eq!(rel("30th", "2001-01-31").unwrap(), "2001-03-30");
    assert_eq!(rel("30th", "2001-01-29").unwrap(), "2001-01-30");
    assert_eq!(rel("29th", "2004-01-31").unwrap(), "2004-02-29");
    assert_eq!(rel("29th", "2001-01-29").unwrap(), "2001-03-29");
    assert_eq!(rel("31st", "2001-04-15T12:30").unwrap(), "2001-05-31");
    assert_eq!(rel("30th", "2001-02-03").unwrap(), "2001-03-30");
    assert_eq!(rel("1st", "2001-12-31").unwrap(), "2002-01-01");
    assert_eq!(rel("1th", "2001-12-31").unwrap(), "2002-01-01");
    assert_eq!(rel("+5th", "2001-02-03").unwrap(), "2001-02-05");
    assert_eq!(rel("0th", "2001-02-03"), None);
    assert_eq!(rel("-5th", "2001-02-03"), None);
    assert_eq!(rel("32nd", "2001-02-03"), None);
    assert_eq!(rel("th", "2001-02-03"), None);
    assert_eq!(rel("5TH", "2001-02-03"), None);
}

#[test]
fn offsets_keep_the_resolution() {
    assert_eq!(rel("1d", "2001-02-03").unwrap(), "2001-02-04");
    assert_eq!(rel("+1d", "2001-02-03").unwrap(), "2001-02-04");
    assert_eq!(rel("-1d", "2001-03-01").unwrap(), "2001-02-28");
    assert_eq!(rel("36h", "2001-02-03").unwrap(), "2001-02-04");
    assert_eq!(rel("2w", "2001-02-03T04").unwrap(), "2001-02-17T04");
    assert_eq!(rel("1M", "2001-01-31").unwrap(), "2001-02-28");
    assert_eq!(rel("1m", "2001-01-31T00:00").unwrap(), "2001-01-31T00:01");
    assert_eq!(rel("-1y", "2004-02-29").unwrap(), "2003-02-28");
    assert_eq!(rel("1y", "2001").unwrap(), "2002");
    assert_eq!(rel("2147483648y", "2001"), None);
    assert_eq!(rel("1D", "2001-02-03"), None);
    assert_eq!(rel("d", "2001-02-03"), None);
    assert_eq!(rel("1.5d", "2001-02-03"), None);
    assert_eq!(rel("", "2001-02-03"), None);
}

#[test]
fn days_of_work_pass_over_weekends() {
    // 2001-02-05 is a Monday.
    let week = ["2001-02-05", "2001-02-06", "2001-02-07", "2001-02-08", "2001-02-09"];
    for (i, day) in week.iter().enumerate() {
        for steps in 0..12 {
            let ahead = i + steps;
            let expect = at("2001-02-05")
                .plus(&Duration::Days((ahead / 5 * 7 + ahead % 5) as i64))
                .unwrap();
            assert_eq!(Date::from_rel(&format!("{}W", steps), &at(day)), Some(expect), "{} {}", day, steps);
            let back = 4 - i + steps;
            let expect = at("2001-02-09")
                .plus(&Duration::Days(-((back / 5 * 7 + back % 5) as i64)))
                .unwrap();
            assert_eq!(Date::from_rel(&format!("-{}W", steps), &at(day)), Some(expect), "{} -{}", day, steps);
        }
    }
    assert_eq!(rel("1W", "2001-02-03").unwrap(), "2001-02-05");
    assert_eq!(rel("1W", "2001-02-04").unwrap(), "2001-02-05");
    assert_eq!(rel("0W", "2001-02-03").unwrap(), "2001-02-03");
    assert_eq!(rel("0W", "2001-02-04").unwrap(), "2001-02-04");
    assert_eq!(rel("-1W", "2001-02-03").unwrap(), "2001-02-02");
    assert_eq!(rel("-1W", "2001-02-04").unwrap(), "2001-02-02");
    assert_eq!(rel("-5W", "2001-02-03").unwrap(), "2001-01-29");
    assert_eq!(rel("-6W", "2001-02-04").unwrap(), "2001-01-26");
}

#[test]
fn named_days_start_at_midnight() {
    assert_eq!(rel("today", "2001-02-03T04:05:06").unwrap(), "2001-02-03");
    assert_eq!(rel("tom", "2001-02-28T23:59:59").unwrap(), "2001-03-01");
    assert_eq!(rel("yesterday", "2001-01-01").unwrap(), "2000-12-31");
    assert_eq!(rel("now", "2001-02").unwrap(), "2001-02");
    assert_eq!(rel("Today", "2001-02-03"), None);
    assert_eq!(
        Date::new("2002", &at("2001")).unwrap().to_string() + &Date::new("tomorrow", &at("2001")).unwrap().to_string(),
        "20022001-01-02"
    );
    assert_eq!(Date::new("nonsense", &at("2001")), None);
    assert_eq!(Date::from_relative_named("today", &at("2001")), Date::from_abs("2001-01-01"));
    assert_eq!(Date::from_relative_offset("1d", &at("2001")).unwrap().to_string(), "2001");
    assert_eq!(Date::from_relative_month("mar", &at("2001")).unwrap().to_string(), "2001-03");
    assert_eq!(Date::from_relative_day_of_month("2nd", &at("2001")).unwrap().to_string(), "2001-01-02");
    assert_eq!(Date::from_relative_weekday("mon", &at("2001")).unwrap().to_string(), "2001-01-08");
    assert_eq!(Date::from_relative_hour("7", &at("2001")).unwrap().to_string(), "2001-01-01T07");
    assert_eq!(Date::from_relative_hm("7:08", &at("2001")).unwrap().to_string(), "2001-01-01T07:08");
    assert_eq!(Date::from_relative_hms("7:08:09", &at("2001")).unwrap().to_string(), "2001-01-01T07:08:09");
}
