//! The registration state of a domain at a point in time, read from the
//! events of its registration record.

use vstd::prelude::*;
use crate::text::{chars_of, same_text, string_of};

verus! {

/// A point in time: whole seconds since 1970-01-01 00:00:00 UTC, leap
/// seconds not counted, and the nanoseconds since that second began.
#[derive(Clone, Copy, Debug, PartialEq, Eq, Structural)]
pub struct Instant {
    pub seconds: i64,
    pub nanos: u32,
}

/// What a timestamp in the form of RFC 3339 denotes: the seconds and the
/// nanoseconds of its instant, or nothing where the text is no timestamp.
pub uninterp spec fn rfc3339_instant(text: Seq<char>) -> Option<(i64, u32)>;

/// Parsing a string as `chrono::DateTime<Utc>` reads a timestamp in a
/// relaxed form of RFC 3339 and moves it to UTC; `timestamp` and
/// `timestamp_subsec_nanos` then give its seconds and nanoseconds. The
/// result depends on the text alone.
#[verifier::external_body]
fn parse_utc(text: &str) -> (r: Option<(i64, u32)>)
    ensures
        r == rfc3339_instant(text@),
{
    let parsed = text.parse::<chrono::DateTime<chrono::Utc>>().ok();
    parsed.map(|date| (date.timestamp(), date.timestamp_subsec_nanos()))
}

impl Instant {
    /// Whether `self` is strictly earlier than `other`: by the seconds, and
    /// within one second by the nanoseconds.
    pub open spec fn before(self, other: Instant) -> bool {
        self.seconds < other.seconds || (self.seconds == other.seconds && self.nanos
            < other.nanos)
    }

    /// The instant that `text` denotes, where `text` is a timestamp in the
    /// form of RFC 3339.
    pub open spec fn parsed(text: Seq<char>) -> Option<Instant> {
        match rfc3339_instant(text) {
            Some((seconds, nanos)) => Some(Instant { seconds, nanos }),
            None => None,
        }
    }

    pub fn new(seconds: i64, nanos: u32) -> (r: Instant)
        ensures
            r == (Instant { seconds, nanos }),
    {
        Instant { seconds, nanos }
    }

    /// Reads a timestamp such as `1997-09-15T04:00:00Z`.
    pub fn from_rfc3339(text: &str) -> (r: Option<Instant>)
        ensures
            r == Instant::parsed(text@),
    {
        match parse_utc(text) {
            Some((seconds, nanos)) => Some(Instant { seconds, nanos }),
            None => None,
        }
    }

    pub fn is_before(&self, other: &Instant) -> (r: bool)
        ensures
            r == self.before(*other),
    {
        self.seconds < other.seconds || (self.seconds == other.seconds && self.nanos
            < other.nanos)
    }
}

/// One entry of a record's history.
#[derive(Clone, Debug)]
pub struct Event {
    pub event_action: String,
    pub event_actor: Option<String>,
    pub event_date: Instant,
}

/// What the contracts read of an event.
pub struct EventView {
    pub action: Seq<char>,
    pub actor: Option<Seq<char>>,
    pub date: Instant,
}

impl View for Event {
    type V = EventView;

    open spec fn view(&self) -> EventView {
        EventView {
            action: self.event_action@,
            actor: match self.event_actor {
                Some(a) => Some(a@),
                None => None,
            },
            date: self.event_date,
        }
    }
}

/// The registration record of a domain. The events come in no order.
#[derive(Clone, Debug)]
pub struct DomainRecord {
    pub events: Vec<Event>,
}

impl View for DomainRecord {
    type V = Seq<EventView>;

    open spec fn view(&self) -> Seq<EventView> {
        self.events@.map_values(|e: Event| e@)
    }
}

/// A fact about a domain that its events decide.
#[derive(Clone, Copy, Debug, PartialEq, Eq, Structural)]
pub enum Fact {
    Registered,
    Locked,
}

/// What an event with this action says of the fact, if anything.
pub open spec fn verdict(action: Seq<char>, fact: Fact) -> Option<bool> {
    match fact {
        Fact::Registered => if action == "registration"@ || action == "reregistration"@
            || action == "reinstantiation"@ || action == "transfer"@ {
            Some(true)
        } else if action == "expiration"@ || action == "deletion"@ {
            Some(false)
        } else {
            None
        },
        Fact::Locked => if action == "locked"@ {
            Some(true)
        } else if action == "unlocked"@ {
            Some(false)
        } else {
            None
        },
    }
}

/// The event lies strictly before `now` and says something of the fact.
pub open spec fn counts(e: EventView, now: Instant, fact: Fact) -> bool {
    e.date.before(now) && verdict(e.action, fact) is Some
}

/// Event `i` decides: it counts, no event that counts is later, and of
/// those at the very same instant it stands first in the record.
pub open spec fn is_deciding(events: Seq<EventView>, i: int, now: Instant, fact: Fact) -> bool {
    &&& 0 <= i < events.len()
    &&& counts(events[i], now, fact)
    &&& forall|j: int|
        0 <= j < events.len() && counts(#[trigger] events[j], now, fact) ==> events[j].date.before(
            events[i].date,
        ) || (events[j].date == events[i].date && i <= j)
}

/// The event that decides, found in one pass from the front.
pub open spec fn decider(events: Seq<EventView>, now: Instant, fact: Fact) -> Option<int>
    decreases events.len(),
{
    if events.len() == 0 {
        None
    } else {
        let earlier = decider(events.drop_last(), now, fact);
        let e = events.last();
        if counts(e, now, fact) && (earlier is None || events[earlier->0].date.before(e.date)) {
            Some(events.len() - 1)
        } else {
            earlier
        }
    }
}

/// The state of the fact at `now`: what the deciding event says, and
/// `false` where no event counts.
pub open spec fn state_at(events: Seq<EventView>, now: Instant, fact: Fact) -> bool {
    match decider(events, now, fact) {
        Some(i) => verdict(events[i].action, fact) == Some(true),
        None => false,
    }
}

/// The pass finds the deciding event where there is one, and finds none
/// only where no event counts.
pub proof fn lemma_decider_decides(events: Seq<EventView>, now: Instant, fact: Fact)
    ensures
        decider(events, now, fact) matches Some(d) ==> is_deciding(events, d, now, fact),
        decider(events, now, fact) is None ==> forall|j: int|
            0 <= j < events.len() ==> !counts(#[trigger] events[j], now, fact),
    decreases events.len(),
{
    if events.len() > 0 {
        let shorter = events.drop_last();
        lemma_decider_decides(shorter, now, fact);
        assert forall|j: int| 0 <= j < shorter.len() implies shorter[j] == events[j] by {}
        match decider(events, now, fact) {
            Some(d) => {
                assert forall|j: int|
                    0 <= j < events.len() && counts(#[trigger] events[j], now, fact) implies events[j].date.before(events[d].date) || (events[j].date == events[d].date && d <= j) by {
                    if j < shorter.len() {
                        assert(counts(shorter[j], now, fact));
                    }
                }
            },
            None => {
                assert forall|j: int| 0 <= j < events.len() implies !counts(
                    #[trigger] events[j],
                    now,
                    fact,
                ) by {
                    if j < shorter.len() {
                        assert(!counts(shorter[j], now, fact));
                    }
                }
            },
        }
    }
}

/// At most one event decides.
pub proof fn lemma_deciding_event_is_unique(
    events: Seq<EventView>,
    i: int,
    j: int,
    now: Instant,
    fact: Fact,
)
    requires
        is_deciding(events, i, now, fact),
        is_deciding(events, j, now, fact),
    ensures
        i == j,
{
}

/// The state of a fact is what the most recent event before `now` that
/// speaks of it says (of several at the same instant the first), and `false`
/// where no event before `now` speaks of it.
pub proof fn lemma_state_is_most_recent_verdict(events: Seq<EventView>, now: Instant, fact: Fact)
    ensures
        forall|i: int| #[trigger]
            is_deciding(events, i, now, fact) ==> state_at(events, now, fact) == (verdict(
                events[i].action,
                fact,
            ) == Some(true)),
        (forall|j: int| 0 <= j < events.len() ==> !counts(#[trigger] events[j], now, fact))
            ==> !state_at(events, now, fact),
{
    lemma_decider_decides(events, now, fact);
    assert forall|i: int| #[trigger] is_deciding(events, i, now, fact) implies state_at(
        events,
        now,
        fact,
    ) == (verdict(events[i].action, fact) == Some(true)) by {
        match decider(events, now, fact) {
            Some(d) => {
                lemma_deciding_event_is_unique(events, i, d, now, fact);
            },
            None => {
                assert(!counts(events[i], now, fact));
            },
        }
    }
    if forall|j: int| 0 <= j < events.len() ==> !counts(#[trigger] events[j], now, fact) {
        if let Some(d) = decider(events, now, fact) {
            assert(counts(events[d], now, fact));
        }
    }
}

/// Where one event that counts is later than every other event that
/// counts, it decides, wherever in the record it stands.
pub proof fn lemma_latest_event_decides(events: Seq<EventView>, i: int, now: Instant, fact: Fact)
    requires
        0 <= i < events.len(),
        counts(events[i], now, fact),
        forall|j: int|
            0 <= j < events.len() && j != i && counts(#[trigger] events[j], now, fact)
                ==> events[j].date.before(events[i].date),
    ensures
        is_deciding(events, i, now, fact),
        state_at(events, now, fact) == (verdict(events[i].action, fact) == Some(true)),
{
    lemma_state_is_most_recent_verdict(events, now, fact);
    assert(is_deciding(events, i, now, fact));
}

/// `order` lists every event once, the most recent first, and events of the
/// same instant in the order in which the record holds them.
pub open spec fn is_backwards_in_time(events: Seq<EventView>, order: Seq<int>) -> bool {
    &&& forall|p: int| 0 <= p < order.len() ==> 0 <= #[trigger] order[p] < events.len()
    &&& forall|j: int| 0 <= j < events.len() ==> order.contains(j)
    &&& forall|p: int, q: int|
        0 <= p < q < order.len() ==> events[#[trigger] order[q]].date.before(
            events[#[trigger] order[p]].date,
        ) || (events[order[p]].date == events[order[q]].date && order[p] < order[q])
}

/// With the events sorted backwards in time, the first of them that counts
/// is the one that decides.
pub proof fn lemma_first_backwards_decides(
    events: Seq<EventView>,
    order: Seq<int>,
    p: int,
    now: Instant,
    fact: Fact,
)
    requires
        is_backwards_in_time(events, order),
        0 <= p < order.len(),
        counts(events[order[p]], now, fact),
        forall|q: int| 0 <= q < p ==> !counts(events[#[trigger] order[q]], now, fact),
    ensures
        is_deciding(events, order[p], now, fact),
        state_at(events, now, fact) == (verdict(events[order[p]].action, fact) == Some(true)),
{
    let d = order[p];
    assert forall|j: int|
        0 <= j < events.len() && counts(#[trigger] events[j], now, fact) implies events[j].date.before(events[d].date) || (events[j].date == events[d].date && d <= j) by {
        assert(order.contains(j));
        let q = choose|q: int| 0 <= q < order.len() && order[q] == j;
        if q < p {
            assert(!counts(events[order[q]], now, fact));
        } else if q > p {
            assert(events[order[q]].date.before(events[order[p]].date) || (events[order[p]].date
                == events[order[q]].date && order[p] < order[q]));
        }
    }
    lemma_state_is_most_recent_verdict(events, now, fact);
    assert(is_deciding(events, d, now, fact));
}

/// What `action` says of `fact`.
pub fn verdict_of(action: &str, fact: Fact) -> (r: Option<bool>)
    ensures
        r == verdict(action@, fact),
{
    match fact {
        Fact::Registered => {
            if same_text(action, "registration") || same_text(action, "reregistration")
                || same_text(action, "reinstantiation") || same_text(action, "transfer") {
                Some(true)
            } else if same_text(action, "expiration") || same_text(action, "deletion") {
                Some(false)
            } else {
                None
            }
        },
        Fact::Locked => {
            if same_text(action, "locked") {
                Some(true)
            } else if same_text(action, "unlocked") {
                Some(false)
            } else {
                None
            }
        },
    }
}

/// Where the records of domains are found, but for the name of the
/// domain at the end.
pub const LOOKUP: &'static str = "https://rdap.org/domain/";

impl DomainRecord {
    /// Where the record of `domain` is found.
    pub fn link(domain: &str) -> (s: String)
        ensures
            s@ == LOOKUP@ + domain@,
    {
        let mut out = chars_of(LOOKUP);
        let name = chars_of(domain);
        let mut i: usize = 0;
        while i < name.len()
            invariant
                i <= name.len(),
                out@ == LOOKUP@ + name@.take(i as int),
            decreases name.len() - i,
        {
            out.push(name[i]);
            assert(name@.take(i + 1) == name@.take(i as int).push(name@[i as int]));
            i += 1;
        }
        assert(name@.take(i as int) == name@);
        string_of(&out)
    }

    /// The state of `fact` at `now`.
    pub fn fact_at(&self, now: &Instant, fact: Fact) -> (r: bool)
        ensures
            r == state_at(self@, *now, fact),
    {
        let mut best: Option<usize> = None;
        let mut state = false;
        let mut i: usize = 0;
        while i < self.events.len()
            invariant
                i <= self.events.len(),
                best matches Some(b) ==> b < i,
                (match best {
                    Some(b) => Some(b as int),
                    None => None,
                }) == decider(self@.take(i as int), *now, fact),
                state == state_at(self@.take(i as int), *now, fact),
            decreases self.events.len() - i,
        {
            let event = &self.events[i];
            proof {
                let upto = self@.take(i as int + 1);
                assert(upto.drop_last() == self@.take(i as int));
                assert(upto.last() == event@);
                if let Some(b) = best {
                    assert(upto[b as int] == self@.take(i as int)[b as int]);
                    assert(self@[b as int] == self.events@[b as int]@);
                }
            }
            if event.event_date.is_before(now) {
                match verdict_of(event.event_action.as_str(), fact) {
                    Some(says) => {
                        let later = match best {
                            Some(b) => self.events[b].event_date.is_before(&event.event_date),
                            None => true,
                        };
                        if later {
                            best = Some(i);
                            state = says;
                        }
                    },
                    None => {},
                }
            }
            proof {
                let upto = self@.take(i as int + 1);
                if let Some(b) = decider(upto, *now, fact) {
                    if b < i {
                        assert(upto[b] == self@.take(i as int)[b]);
                    }
                }
            }
            i += 1;
        }
        assert(self@.take(i as int) == self@);
        state
    }

    /// Whether the domain is locked at `now`.
    pub fn is_locked_at(&self, now: &Instant) -> (locked: bool)
        ensures
            locked == state_at(self@, *now, Fact::Locked),
    {
        self.fact_at(now, Fact::Locked)
    }

    /// Whether the domain is registered at `now`.
    pub fn is_registered_at(&self, now: &Instant) -> (registered: bool)
        ensures
            registered == state_at(self@, *now, Fact::Registered),
    {
        self.fact_at(now, Fact::Registered)
    }

    /// Whether the domain is neither registered nor locked at `now`. This
    /// does not say that its top-level domain is open to the public.
    pub fn is_buyable_at(&self, now: &Instant) -> (buyable: bool)
        ensures
            buyable == !(state_at(self@, *now, Fact::Registered) || state_at(
                self@,
                *now,
                Fact::Locked,
            )),
    {
        !(self.is_registered_at(now) || self.is_locked_at(now))
    }
}

/// What the status of a response says.
#[derive(Clone, Copy, Debug, PartialEq, Eq, Structural)]
pub enum Answer {
    /// The response holds the record of the domain.
    Record,
    /// There is no record: the domain was never registered, or it has no
    /// valid top-level domain. This is no error.
    NotFound,
    /// The lookup failed.
    FetchError,
}

/// What a response with this status says: 404 that there is no record,
/// another status outside 200 to 299 that the lookup failed.
pub open spec fn answer_of(status: u16) -> Answer {
    if status == 404 {
        Answer::NotFound
    } else if 200 <= status <= 299 {
        Answer::Record
    } else {
        Answer::FetchError
    }
}

/// What a response with this status says.
pub fn answer(status: u16) -> (r: Answer)
    ensures
        r == answer_of(status),
{
    if status == 404 {
        Answer::NotFound
    } else if 200 <= status && status <= 299 {
        Answer::Record
    } else {
        Answer::FetchError
    }
}

/// Whether a domain is registered at `now`; one without a record is not.
pub fn is_registered(record: &Option<DomainRecord>, now: &Instant) -> (r: bool)
    ensures
        r == match record {
            Some(found) => state_at(found@, *now, Fact::Registered),
            None => false,
        },
{
    match record {
        Some(found) => found.is_registered_at(now),
        None => false,
    }
}

/// Whether a domain is locked at `now`; one without a record is not.
pub fn is_locked(record: &Option<DomainRecord>, now: &Instant) -> (r: bool)
    ensures
        r == match record {
            Some(found) => state_at(found@, *now, Fact::Locked),
            None => false,
        },
{
    match record {
        Some(found) => found.is_locked_at(now),
        None => false,
    }
}

/// Whether a domain can be bought at `now`: it is neither registered nor
/// locked. A domain without a record was never registered and can be
/// bought.
pub fn can_purchase(record: &Option<DomainRecord>, now: &Instant) -> (r: bool)
    ensures
        r == match record {
            Some(found) => !(state_at(found@, *now, Fact::Registered) || state_at(
                found@,
                *now,
                Fact::Locked,
            )),
            None => true,
        },
{
    match record {
        Some(found) => found.is_buyable_at(now),
        None => true,
    }
}

} // verus!
