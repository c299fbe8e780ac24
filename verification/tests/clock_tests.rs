use xitca_h1::clock::{Clock, format_imf_date};

#[test]
fn epoch_start() {
    assert_eq!(format_imf_date(0), b"Thu, 01 Jan 1970 00:00:00 GMT".to_vec());
}

#[test]
fn classic_fixdate_example() {
    assert_eq!(format_imf_date(784111777), b"Sun, 06 Nov 1994 08:49:37 GMT".to_vec());
}

#[test]
fn leap_day() {
    assert_eq!(format_imf_date(1709164800), b"Thu, 29 Feb 2024 00:00:00 GMT".to_vec());
}

#[test]
fn last_supported_second() {
    assert_eq!(format_imf_date(253402300799), b"Fri, 31 Dec 9999 23:59:59 GMT".to_vec());
}

#[test]
fn date_is_imf_fixdate_shaped() {
    let d = format_imf_date(1700000000);
    assert_eq!(d.len(), 29);
    let s = String::from_utf8(d).unwrap();
    assert_eq!(&s[3..5], ", ");
    assert_eq!(&s[25..29], " GMT");
    assert!(s.as_bytes()[5].is_ascii_digit() && s.as_bytes()[6].is_ascii_digit());
}

#[test]
fn clock_caches_and_refreshes() {
    let mut clock = Clock::new(0);
    assert_eq!(clock.get(), &b"Thu, 01 Jan 1970 00:00:00 GMT".to_vec());
    clock.refresh(784111777);
    assert_eq!(clock.get(), &b"Sun, 06 Nov 1994 08:49:37 GMT".to_vec());
}
