use datacollect::modules::rdap::{
    answer, can_purchase, is_locked, is_registered, verdict_of, Answer, DomainRecord, Event, Fact,
    Instant,
};

fn event(action: &str, seconds: i64) -> Event {
    Event {
        event_action: action.to_string(),
        event_actor: None,
        event_date: Instant::new(seconds, 0),
    }
}

fn at(seconds: i64) -> Instant {
    Instant::new(seconds, 0)
}

fn history() -> DomainRecord {
    DomainRecord {
        events: vec![event("registration", 0), event("locked", 10), event("unlocked", 20)],
    }
}

#[test]
fn state_follows_the_most_recent_event() {
    let record = history();
    assert_eq!(record.is_locked_at(&at(15)), true);
    assert_eq!(record.is_locked_at(&at(25)), false);
    assert_eq!(record.is_registered_at(&at(5)), true);
    assert_eq!(record.is_buyable_at(&at(25)), false);
    assert_eq!(record.is_registered_at(&at(25)), true);
}

#[test]
fn buyable_once_expired_and_unlocked() {
    let record = DomainRecord {
        events: vec![
            event("registration", 0),
            event("locked", 10),
            event("unlocked", 20),
            event("expiration", 22),
        ],
    };
    assert_eq!(record.is_buyable_at(&at(25)), true);
    assert_eq!(record.is_buyable_at(&at(22)), false);
    assert_eq!(record.is_buyable_at(&at(15)), false);
}

#[test]
fn events_count_only_strictly_before() {
    let record = history();
    assert_eq!(record.is_locked_at(&at(10)), false);
    assert_eq!(record.is_locked_at(&Instant::new(10, 1)), true);
    assert_eq!(record.is_registered_at(&at(0)), false);
    assert_eq!(record.is_buyable_at(&at(0)), true);
    assert_eq!(record.is_locked_at(&at(20)), true);
    assert_eq!(record.is_locked_at(&Instant::new(20, 1)), false);
}

#[test]
fn order_of_events_does_not_matter() {
    let record = DomainRecord {
        events: vec![event("unlocked", 20), event("registration", 0), event("locked", 10)],
    };
    assert_eq!(record.is_locked_at(&at(15)), true);
    assert_eq!(record.is_locked_at(&at(25)), false);
    assert_eq!(record.is_registered_at(&at(5)), true);
}

#[test]
fn unknown_actions_are_passed_over() {
    let record = DomainRecord {
        events: vec![
            event("registration", 0),
            event("last changed", 30),
            event("last update of RDAP database", 40),
            event("Locked", 41),
        ],
    };
    assert_eq!(record.is_registered_at(&at(50)), true);
    assert_eq!(record.is_locked_at(&at(50)), false);
    let empty = DomainRecord { events: vec![] };
    assert_eq!(empty.is_registered_at(&at(50)), false);
    assert_eq!(empty.is_locked_at(&at(50)), false);
    assert_eq!(empty.is_buyable_at(&at(50)), true);
}

#[test]
fn every_action_has_its_verdict() {
    for action in ["registration", "reregistration", "reinstantiation", "transfer"] {
        assert_eq!(verdict_of(action, Fact::Registered), Some(true));
        assert_eq!(verdict_of(action, Fact::Locked), None);
    }
    for action in ["expiration", "deletion"] {
        assert_eq!(verdict_of(action, Fact::Registered), Some(false));
        assert_eq!(verdict_of(action, Fact::Locked), None);
    }
    assert_eq!(verdict_of("locked", Fact::Locked), Some(true));
    assert_eq!(verdict_of("unlocked", Fact::Locked), Some(false));
    assert_eq!(verdict_of("locked", Fact::Registered), None);
    assert_eq!(verdict_of("", Fact::Registered), None);
}

fn event_at(action: &str, seconds: i64, nanos: u32) -> Event {
    Event {
        event_action: action.to_string(),
        event_actor: None,
        event_date: Instant::new(seconds, nanos),
    }
}

#[test]
fn later_by_nanoseconds_is_later() {
    let locked = event_at("locked", 10, 100);
    let unlocked = event_at("unlocked", 10, 200);
    let record = DomainRecord { events: vec![locked.clone(), unlocked.clone()] };
    assert_eq!(record.is_locked_at(&at(11)), false);
    assert_eq!(record.is_locked_at(&Instant::new(10, 200)), true);
    assert_eq!(record.is_locked_at(&Instant::new(10, 100)), false);
    let record = DomainRecord { events: vec![unlocked, locked] };
    assert_eq!(record.is_locked_at(&at(11)), false);

    let registered = event_at("registration", 10, 100);
    let expired = event_at("expiration", 10, 200);
    let record = DomainRecord { events: vec![registered.clone(), expired.clone()] };
    assert_eq!(record.is_registered_at(&at(11)), false);
    assert_eq!(record.is_buyable_at(&at(11)), true);
    let record = DomainRecord { events: vec![expired, registered] };
    assert_eq!(record.is_registered_at(&at(11)), false);
}

#[test]
fn later_within_one_millisecond_is_later() {
    let first = event_at("locked", 10, 5_000_000);
    let second = event_at("unlocked", 10, 5_999_999);
    let record = DomainRecord { events: vec![first.clone(), second.clone()] };
    assert_eq!(record.is_locked_at(&at(11)), false);
    let record = DomainRecord { events: vec![second, first] };
    assert_eq!(record.is_locked_at(&at(11)), false);
}

#[test]
fn first_of_two_events_at_the_same_instant_decides() {
    let record = DomainRecord {
        events: vec![event_at("locked", 10, 7), event_at("unlocked", 10, 7)],
    };
    assert_eq!(record.is_locked_at(&at(11)), true);
    let record = DomainRecord {
        events: vec![event_at("unlocked", 10, 7), event_at("locked", 10, 7)],
    };
    assert_eq!(record.is_locked_at(&at(11)), false);
}

#[test]
fn seconds_go_before_nanoseconds() {
    let record = DomainRecord {
        events: vec![event_at("locked", 10, 1_500_000_000), event_at("unlocked", 11, 0)],
    };
    assert_eq!(record.is_locked_at(&at(12)), false);
    assert_eq!(record.is_locked_at(&at(11)), true);
}

#[test]
fn expiration_unregisters() {
    let record = DomainRecord {
        events: vec![
            event("registration", 0),
            event("expiration", 100),
            event("reregistration", 200),
            event("deletion", 300),
            event("transfer", 400),
        ],
    };
    assert_eq!(record.is_registered_at(&at(50)), true);
    assert_eq!(record.is_registered_at(&at(150)), false);
    assert_eq!(record.is_registered_at(&at(250)), true);
    assert_eq!(record.is_registered_at(&at(350)), false);
    assert_eq!(record.is_registered_at(&at(450)), true);
}

#[test]
fn instants_from_rfc3339() {
    let t = Instant::from_rfc3339("1997-09-15T04:00:00Z").unwrap();
    assert_eq!(t, Instant::new(874296000, 0));
    let t = Instant::from_rfc3339("1970-01-01T00:00:01.5+00:00").unwrap();
    assert_eq!(t, Instant::new(1, 500_000_000));
    let t = Instant::from_rfc3339("1970-01-01T01:00:00+01:00").unwrap();
    assert_eq!(t, Instant::new(0, 0));
    let t = Instant::from_rfc3339("1969-12-31T23:59:59.25Z").unwrap();
    assert_eq!(t, Instant::new(-1, 250_000_000));
    assert!(Instant::from_rfc3339("yesterday").is_none());
    assert!(Instant::from_rfc3339("").is_none());
    assert!(Instant::new(0, 0).is_before(&Instant::new(0, 1)));
    assert!(!Instant::new(0, 1).is_before(&Instant::new(0, 1)));
    assert!(Instant::new(-1, 999_999_999).is_before(&Instant::new(0, 0)));
}

#[test]
fn record_of_real_shape() {
    let date = |s: &str| Instant::from_rfc3339(s).unwrap();
    let record = DomainRecord {
        events: vec![
            Event {
                event_action: "registration".to_string(),
                event_actor: None,
                event_date: date("1997-09-15T04:00:00Z"),
            },
            Event {
                event_action: "expiration".to_string(),
                event_actor: None,
                event_date: date("2028-09-14T04:00:00Z"),
            },
            Event {
                event_action: "last changed".to_string(),
                event_actor: Some("registrar".to_string()),
                event_date: date("2019-09-09T15:39:04Z"),
            },
        ],
    };
    let now = date("2021-06-01T00:00:00Z");
    assert_eq!(record.is_locked_at(&now), false);
    assert_eq!(record.is_registered_at(&now), true);
    assert_eq!(record.is_buyable_at(&now), false);
    assert_eq!(record.is_buyable_at(&date("2030-01-01T00:00:00Z")), true);
}

#[test]
fn status_of_a_response() {
    assert_eq!(answer(404), Answer::NotFound);
    assert_eq!(answer(200), Answer::Record);
    assert_eq!(answer(299), Answer::Record);
    assert_eq!(answer(199), Answer::FetchError);
    assert_eq!(answer(300), Answer::FetchError);
    assert_eq!(answer(500), Answer::FetchError);
    assert_eq!(answer(403), Answer::FetchError);
}

#[test]
fn domain_without_record() {
    let now = at(100);
    assert_eq!(is_registered(&None, &now), false);
    assert_eq!(is_locked(&None, &now), false);
    assert_eq!(can_purchase(&None, &now), true);
    let record = Some(history());
    assert_eq!(is_registered(&record, &now), true);
    assert_eq!(is_locked(&record, &now), false);
    assert_eq!(can_purchase(&record, &now), false);
}

#[test]
fn link_of_a_domain() {
    assert_eq!(DomainRecord::link("google.com"), "https://rdap.org/domain/google.com");
    assert_eq!(DomainRecord::link(""), "https://rdap.org/domain/");
}
