use my_logger::{CivilDateTime, Timestamp};

fn civil(year: i64, month: u8, day: u8, hour: u8, minute: u8, second: u8, micro: u32) -> CivilDateTime {
    CivilDateTime { year, month, day, hour, minute, second, micro }
}

#[test]
fn epoch_is_the_first_of_january_1970() {
    let t = Timestamp::new(0);
    assert_eq!(civil(1970, 1, 1, 0, 0, 0, 0), t.to_civil());
    assert_eq!("1970-01-01T00:00:00.000000+00:00", t.to_rfc3339());
    assert_eq!("1970-01-01T00:00:00.000", t.to_millis_text());
}

#[test]
fn a_time_of_2021() {
    let t = Timestamp::new(1_619_371_843_602_432);
    assert_eq!(civil(2021, 4, 25, 17, 30, 43, 602_432), t.to_civil());
    assert_eq!("2021-04-25T17:30:43.602432+00:00", t.to_rfc3339());
    assert_eq!("2021-04-25T17:30:43.602", t.to_millis_text());
}

#[test]
fn millis_are_cut_not_rounded() {
    let t = Timestamp::new(1_619_371_843_999_999);
    assert_eq!("2021-04-25T17:30:43.999", t.to_millis_text());
    assert_eq!("2021-04-25T17:30:43.999999+00:00", t.to_rfc3339());
}

#[test]
fn the_microsecond_before_the_epoch() {
    let t = Timestamp::new(-1);
    assert_eq!(civil(1969, 12, 31, 23, 59, 59, 999_999), t.to_civil());
    assert_eq!("1969-12-31T23:59:59.999999+00:00", t.to_rfc3339());
}

#[test]
fn leap_days() {
    assert_eq!(
        "2024-02-29T00:00:00.000000+00:00",
        Timestamp::new(1_709_164_800_000_000).to_rfc3339()
    );
    assert_eq!(
        "2024-03-01T00:00:00.000000+00:00",
        Timestamp::new(1_709_251_200_000_000).to_rfc3339()
    );
    assert_eq!(
        "2000-02-29T12:00:00.000000+00:00",
        Timestamp::new(951_825_600_000_000).to_rfc3339()
    );
    assert_eq!(
        "2100-03-01T00:00:00.000000+00:00",
        Timestamp::new(4_107_542_400_000_000).to_rfc3339()
    );
    assert_eq!(
        "2100-02-28T00:00:00.000000+00:00",
        Timestamp::new(4_107_456_000_000_000).to_rfc3339()
    );
}

#[test]
fn last_and_first_day_of_a_year() {
    assert_eq!(
        "2023-12-31T23:59:59.000000+00:00",
        Timestamp::new(1_704_067_199_000_000).to_rfc3339()
    );
    assert_eq!(
        "2024-01-01T00:00:00.000000+00:00",
        Timestamp::new(1_704_067_200_000_000).to_rfc3339()
    );
}

#[test]
fn years_outside_four_digits_carry_their_sign() {
    assert_eq!(
        "9999-12-31T23:59:59.999999+00:00",
        Timestamp::new(253_402_300_799_999_999).to_rfc3339()
    );
    assert_eq!(
        "+10000-01-01T00:00:00.000000+00:00",
        Timestamp::new(253_402_300_800_000_000).to_rfc3339()
    );
    assert_eq!(
        "0000-01-01T00:00:00.000000+00:00",
        Timestamp::new(-62_167_219_200_000_000).to_rfc3339()
    );
    assert_eq!(
        "-0001-01-01T00:00:00.000000+00:00",
        Timestamp::new(-62_198_755_200_000_000).to_rfc3339()
    );
    assert_eq!(
        "-0001-12-31T23:59:59.999",
        Timestamp::new(-62_167_219_200_000_001).to_millis_text()
    );
}

#[test]
fn the_ends_of_the_range() {
    assert_eq!(
        "+294247-01-10T04:00:54.775807+00:00",
        Timestamp::new(i64::MAX).to_rfc3339()
    );
    assert_eq!(
        "-290308-12-21T19:59:05.224192+00:00",
        Timestamp::new(i64::MIN).to_rfc3339()
    );
}

#[test]
fn civil_form_renders_by_itself() {
    let c = civil(2021, 4, 5, 6, 7, 8, 9);
    assert_eq!("2021-04-05T06:07:08.000009+00:00", c.to_rfc3339());
    assert_eq!("2021-04-05T06:07:08.000", c.to_millis_text());
    let early = civil(33, 4, 5, 6, 7, 8, 123_456);
    assert_eq!("0033-04-05T06:07:08.123456+00:00", early.to_rfc3339());
}
