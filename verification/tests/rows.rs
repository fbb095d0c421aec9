use pyrwa::adapter::Adaper;
use pyrwa::bignum::{BigNum, BigSign};
use pyrwa::flights::StatusFlight;
use pyrwa::items::collect;

fn value(b: &BigNum) -> i128 {
    let mut v: i128 = 0;
    for d in b.digits.iter().rev() {
        v = v * 4294967296 + *d as i128;
    }
    match b.sign {
        BigSign::Minus => -v,
        BigSign::NoSign => 0,
        BigSign::Plus => v,
    }
}

#[test]
fn status_names_round_trip() {
    let all = [
        StatusFlight::Departed,
        StatusFlight::Arrived,
        StatusFlight::OnTime,
        StatusFlight::Cancelled,
        StatusFlight::Delayed,
        StatusFlight::Scheduled,
    ];
    for s in all.iter() {
        assert_eq!(StatusFlight::from_name(s.name()), Some(*s));
    }
    assert_eq!(StatusFlight::OnTime.name(), "OnTime");
    assert_eq!(StatusFlight::from_name("Scheduled"), Some(StatusFlight::Scheduled));
}

#[test]
fn unknown_status_name_is_none() {
    assert_eq!(StatusFlight::from_name("Boarding"), None);
    assert_eq!(StatusFlight::from_name("departed"), None);
    assert_eq!(StatusFlight::from_name(""), None);
}

#[test]
fn collect_numbers_texts_and_parity() {
    let items = collect(3);
    assert_eq!(items.len(), 3);
    assert_eq!(value(&items[0].a), 0);
    assert_eq!(value(&items[1].a), 1);
    assert_eq!(value(&items[2].a), 2);
    assert_eq!(items[0].b, "0");
    assert_eq!(items[1].b, "1");
    assert_eq!(items[2].b, "2");
    assert!(!items[0].c);
    assert!(items[1].c);
    assert!(!items[2].c);
}

#[test]
fn collect_decimal_text_of_larger_numbers() {
    let items = collect(12);
    assert_eq!(items[10].b, "10");
    assert_eq!(items[11].b, "11");
    assert_eq!(value(&items[11].a), 11);
    assert!(items[11].c);
}

#[test]
fn collect_of_non_positive_is_empty() {
    assert!(collect(0).is_empty());
    assert!(collect(-4).is_empty());
}

#[test]
fn adapter_reads_columns_in_order() {
    let row = [10, 20, 30];
    let mut ad: Adaper<&[i32; 3]> = Adaper::new();
    assert!(ad.row.is_none());
    let copy = ad.change_row(Some(&row));
    assert_eq!(copy.idx, 0);
    let (r, i) = ad.next();
    assert_eq!(r[i], 10);
    let (r, i) = ad.next();
    assert_eq!(r[i], 20);
    let (r, i) = ad.next();
    assert_eq!(r[i], 30);
    assert_eq!(ad.idx, 3);
    ad.change_row(Some(&row));
    let (_, i) = ad.next();
    assert_eq!(i, 0);
}
