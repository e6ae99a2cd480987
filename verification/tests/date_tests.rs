use goethite::date::Date;

#[test]
fn valid_and_invalid_dates() {
    assert!(Date::new(2016, 2, 29).is_some());
    assert!(Date::new(2015, 2, 29).is_none());
    assert!(Date::new(2000, 2, 29).is_some());
    assert!(Date::new(1900, 2, 29).is_none());
    assert!(Date::new(2015, 13, 1).is_none());
    assert!(Date::new(2015, 4, 31).is_none());
    assert!(Date::new(2015, 1, 0).is_none());
    assert!(Date::new(-4, 2, 29).is_some());
    assert!(Date::new(400000, 1, 1).is_none());
}

#[test]
fn date_forms() {
    let d = Date::new(2015, 6, 3).unwrap();
    assert_eq!(d.slash_form(), "2015/06/03");
    assert_eq!(d.display_form(), "03 Jun 2015");
    let e = Date::new(987, 12, 25).unwrap();
    assert_eq!(e.slash_form(), "0987/12/25");
    assert_eq!(e.display_form(), "25 Dec 0987");
}

#[test]
fn date_parse() {
    let d = Date::parse("2014-05-17").unwrap();
    assert_eq!((d.year(), d.month(), d.day()), (2014, 5, 17));
    assert!(Date::parse("2015/9/31").is_err());
    assert!(Date::parse("2015-9-31").is_err());
}

#[test]
fn date_order() {
    let a = Date::new(2015, 6, 3).unwrap();
    let b = Date::new(2015, 6, 4).unwrap();
    let c = Date::new(2016, 1, 1).unwrap();
    assert!(a.is_before(&b));
    assert!(b.is_before(&c));
    assert!(!b.is_before(&a));
    assert!(!a.is_before(&a));
}

#[test]
fn today_is_a_date() {
    let d = Date::today().unwrap();
    assert!(d.year() >= 2024);
    assert!(Date::new(d.year(), d.month(), d.day()).is_some());
}
