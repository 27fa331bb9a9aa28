use chrono::{DateTime, Duration, TimeZone, Utc};
use client::timestamp::{EPOCH_ANCHOR_SECS, LAST_PLAIN_SECOND, TTL_SECS};
use client::Timestamp;

fn at(secs: i64, nanos: u32) -> Timestamp {
    Timestamp { secs, nanos }
}

#[test]
fn the_anchor_is_noon_of_2024_10_28() {
    let noon = Utc.with_ymd_and_hms(2024, 10, 28, 12, 0, 0).unwrap();
    assert_eq!(EPOCH_ANCHOR_SECS, noon.timestamp());
    assert_eq!(Timestamp::anchor(), at(1_730_116_800, 0));
    assert_eq!(Timestamp::anchor().to_text(), Some(noon.to_string()));
}

#[test]
fn the_ttl_is_five_minutes() {
    assert_eq!(TTL_SECS, Duration::minutes(5).num_seconds());
}

#[test]
fn to_text_writes_the_date_as_chrono_does() {
    assert_eq!(at(1_730_116_800, 0).to_text(), Some("2024-10-28 12:00:00 UTC".to_string()));
    assert_eq!(at(1_431_648_000, 0).to_text(), Some("2015-05-15 00:00:00 UTC".to_string()));
    assert_eq!(at(0, 0).to_text(), Some("1970-01-01 00:00:00 UTC".to_string()));
    assert_eq!(
        at(1_730_116_800, 123_000_000).to_text(),
        Some("2024-10-28 12:00:00.123 UTC".to_string())
    );
    assert_eq!(
        at(1_730_116_800, 999_999_999).to_text(),
        Some("2024-10-28 12:00:00.999999999 UTC".to_string())
    );
}

#[test]
fn plain_moments_have_a_text() {
    assert_eq!(
        at(LAST_PLAIN_SECOND, 999_999_999).to_text(),
        Some("9999-12-31 23:59:59.999999999 UTC".to_string())
    );
    assert!(at(LAST_PLAIN_SECOND, 0).is_plain());
    assert!(at(0, 0).is_plain());
    assert!(!at(-1, 0).is_plain());
    assert!(!at(LAST_PLAIN_SECOND + 1, 0).is_plain());
    assert!(!at(0, 1_000_000_000).is_plain());
    let mut secs = 0;
    while secs <= LAST_PLAIN_SECOND {
        assert!(at(secs, 0).to_text().is_some());
        assert!(at(secs, 999_999_999).to_text().is_some());
        secs += 86_399 * 40_000 + 59;
    }
}

#[test]
fn moments_out_of_range_have_no_text() {
    assert_eq!(at(i64::MAX, 0).to_text(), None);
    assert_eq!(at(i64::MIN, 0).to_text(), None);
    assert_eq!(at(0, 2_000_000_000).to_text(), None);
    assert_eq!(at(0, 1_000_000_000).to_text(), None);
}

#[test]
fn a_snapshot_is_fresh_until_the_ttl_has_passed() {
    let from = at(1_730_116_800, 500);
    assert!(from.fresh_at(at(1_730_116_800, 500)));
    assert!(from.fresh_at(at(1_730_116_800, 0)));
    assert!(from.fresh_at(at(1_730_000_000, 0)));
    assert!(from.fresh_at(at(1_730_117_099, 999_999_999)));
    assert!(from.fresh_at(at(1_730_117_100, 499)));
    assert!(!from.fresh_at(at(1_730_117_100, 500)));
    assert!(!from.fresh_at(at(1_730_117_100, 501)));
    assert!(!from.fresh_at(at(1_730_117_101, 0)));
}

#[test]
fn fresh_at_agrees_with_chrono() {
    let moments = [
        (1_730_116_800, 0),
        (1_730_116_800, 1),
        (1_730_117_099, 999_999_999),
        (1_730_117_100, 0),
        (1_730_117_100, 1),
        (1_730_117_400, 0),
        (0, 0),
        (299, 999_999_999),
        (300, 0),
    ];
    for (from_secs, from_nanos) in moments {
        for (now_secs, now_nanos) in moments {
            let from = DateTime::<Utc>::from_timestamp(from_secs, from_nanos).unwrap();
            let now = DateTime::<Utc>::from_timestamp(now_secs, now_nanos).unwrap();
            assert_eq!(
                at(from_secs, from_nanos).fresh_at(at(now_secs, now_nanos)),
                now < from + Duration::minutes(5)
            );
        }
    }
}

#[test]
fn fresh_at_does_not_overflow() {
    assert!(at(i64::MAX, 0).fresh_at(at(i64::MAX, 5)));
    assert!(at(i64::MAX - 299, 0).fresh_at(at(i64::MAX, 5)));
    assert!(!at(i64::MAX - 300, 0).fresh_at(at(i64::MAX, 5)));
    assert!(at(i64::MAX - 300, 6).fresh_at(at(i64::MAX, 5)));
    assert!(!at(i64::MIN, 0).fresh_at(at(0, 0)));
}
