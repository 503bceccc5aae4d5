use mail_headers::{DateTime, EncodeHandle, MailType, OutputToken};

#[test]
fn date_time() {
    let mut handle = EncodeHandle::new(MailType::Ascii);
    DateTime::test_time(45).encode(&mut handle).unwrap();
    assert_eq!(
        handle.into_tokens(),
        vec![OutputToken::Text("Tue,  6 Aug 2013 04:11:45 +0000".to_string())]
    );
}

#[test]
fn date_text_is_one_unfolded_token() {
    let mut handle = EncodeHandle::new(MailType::Ascii);
    let dt = DateTime::from_ymd_hms(1999, 12, 31, 23, 59, 59).unwrap();
    dt.encode(&mut handle).unwrap();
    assert_eq!(
        handle.into_tokens(),
        vec![OutputToken::Text("Fri, 31 Dec 1999 23:59:59 +0000".to_string())]
    );
}

#[test]
fn impossible_dates_are_rejected() {
    assert!(DateTime::from_ymd_hms(2013, 2, 30, 0, 0, 0).is_none());
    assert!(DateTime::from_ymd_hms(2020, 2, 29, 0, 0, 0).is_some());
    assert!(DateTime::from_ymd_hms(2100, 2, 29, 0, 0, 0).is_none());
    assert!(DateTime::from_ymd_hms(2013, 13, 1, 0, 0, 0).is_none());
    assert!(DateTime::from_ymd_hms(2013, 8, 6, 24, 0, 0).is_none());
}

#[test]
fn zone_conversion_can_move_the_day() {
    // 01:30 at UTC+3 on the first of the month is 22:30 the previous day.
    let dt = DateTime::new(2013, 8, 1, 1, 30, 0, 3 * 3600).unwrap();
    assert_eq!(dt, DateTime::from_ymd_hms(2013, 7, 31, 22, 30, 0).unwrap());
}

#[test]
fn invalid_zoned_input_is_rejected() {
    assert!(DateTime::new(2013, 2, 30, 0, 0, 0, 0).is_none());
    assert!(DateTime::new(2013, 8, 6, 7, 11, 45, 100_000).is_none());
}

#[test]
fn now_encodes_to_the_fixed_pattern_shape() {
    let mut handle = EncodeHandle::new(MailType::Ascii);
    DateTime::now().encode(&mut handle).unwrap();
    let tokens = handle.into_tokens();
    assert_eq!(tokens.len(), 1);
    match &tokens[0] {
        OutputToken::Text(s) => {
            assert_eq!(s.len(), 31);
            assert!(s.ends_with(" +0000"));
        }
        OutputToken::MarkFold => panic!("expected a text token"),
    }
}
