use agentprof::timestamp::{format_time_short, Timestamp};
use agentprof::watch::watch_step;

#[test]
fn time_of_day_text() {
    assert_eq!(format_time_short(&Timestamp::new(1_771_060_097, 466_100_000).unwrap()), "09:08:17");
    assert_eq!(format_time_short(&Timestamp::new(0, 0).unwrap()), "00:00:00");
    assert_eq!(format_time_short(&Timestamp::new(-1, 0).unwrap()), "23:59:59");
    assert_eq!(format_time_short(&Timestamp::new(59, 1_500_000_000).unwrap()), "00:00:60");
}

#[test]
fn watch_reloads_on_changed_modification_time() {
    assert_eq!(watch_step(None, Some(Some(5))), (Some(5), true));
    assert_eq!(watch_step(Some(5), Some(Some(5))), (Some(5), false));
    assert_eq!(watch_step(Some(5), Some(Some(7))), (Some(7), true));
    assert_eq!(watch_step(Some(5), Some(None)), (None, true));
    assert_eq!(watch_step(None, Some(None)), (None, false));
}

#[test]
fn watch_keeps_state_when_metadata_fails() {
    assert_eq!(watch_step(Some(5), None), (Some(5), false));
    assert_eq!(watch_step(None, None), (None, false));
}

#[test]
fn instants_within_chrono_range() {
    assert!(Timestamp::new(-8_334_601_228_800, 0).is_some());
    assert!(Timestamp::new(-8_334_601_228_801, 999_999_999).is_none());
    assert!(Timestamp::new(8_210_266_876_799, 1_999_999_999).is_some());
    assert!(Timestamp::new(8_210_266_876_800, 0).is_none());
    assert!(Timestamp::new(0, 2_000_000_000).is_none());
    assert!(Timestamp::new(58, 1_000_000_000).is_none());
    assert!(Timestamp::new(-1, 1_000_000_000).is_some());
}

#[test]
fn watch_reloads_once_per_change() {
    let polls = [Some(Some(3)), None, Some(Some(3)), Some(Some(3)), Some(Some(8)), None, Some(Some(8))];
    let mut last = Some(1);
    let mut reloads = Vec::new();
    for p in polls {
        let (next, reload) = watch_step(last, p);
        last = next;
        reloads.push(reload);
    }
    assert_eq!(reloads, vec![true, false, false, false, true, false, false]);
    assert_eq!(last, Some(8));
}
