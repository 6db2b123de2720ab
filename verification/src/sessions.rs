//! Login sessions as logind reports them, and which of them are marked active.
use vstd::prelude::*;

use crate::text::{first_value, lemma_first_match, lemma_first_value_at, lemma_first_value_meaning, lemma_first_value_step, str_eq};

verus! {

/// A login session: its id, its user, its seat, and whether it is marked active.
#[derive(Debug, PartialEq)]
pub struct Session {
    pub session_id: String,
    pub user_id: u32,
    pub user_name: String,
    pub seat: String,
    pub active: bool,
}

/// One row of logind's session list: session id, user id, user name and seat.
#[derive(Debug, PartialEq)]
pub struct SessionRecord {
    pub session_id: String,
    pub user_id: u32,
    pub user_name: String,
    pub seat: String,
}

/// A seat and the id of the session that logind reports as the seat's active one.
#[derive(Debug, PartialEq)]
pub struct SeatActivity {
    pub seat: String,
    pub active_session: String,
}

/// A proxy for logind's manager interface on the system bus.
pub struct LoginProxy<P>(P);

impl<P> LoginProxy<P> {
    /// The proxy that this value holds.
    pub closed spec fn inner(&self) -> P {
        self.0
    }

    /// Holds the given proxy for logind's manager interface.
    pub fn new(proxy: P) -> (login: Self)
        ensures
            login.inner() == proxy,
    {
        LoginProxy(proxy)
    }

    /// The bus proxy that this value holds.
    pub fn proxy(&self) -> (proxy: &P)
        ensures
            *proxy == self.inner(),
    {
        &self.0
    }
}

/// The characters of each string.
pub open spec fn string_views(v: Seq<String>) -> Seq<Seq<char>> {
    v.map_values(|s: String| s@)
}

/// The seat of each record, in order.
pub open spec fn record_seats(records: Seq<SessionRecord>) -> Seq<Seq<char>> {
    records.map_values(|r: SessionRecord| r.seat@)
}

/// The characters of each string, and the seat of each record, in order.
pub proof fn lemma_views_meaning(strings: Seq<String>, records: Seq<SessionRecord>)
    ensures
        string_views(strings).len() == strings.len(),
        forall|k: int| 0 <= k < strings.len() ==> #[trigger] string_views(strings)[k] == strings[k]@,
        record_seats(records).len() == records.len(),
        forall|k: int| 0 <= k < records.len() ==> #[trigger] record_seats(records)[k] == records[k].seat@,
{
}

/// The position of the first occurrence of `seat` in `seats`, or the length
/// of `seats` where it does not occur.
pub open spec fn first_index_of(seats: Seq<Seq<char>>, seat: Seq<char>) -> int
    decreases seats.len(),
{
    if seats.len() == 0 {
        0
    } else if seats[0] == seat {
        0
    } else {
        1 + first_index_of(seats.drop_first(), seat)
    }
}

/// The seats of `seats`, each once, in the order of their first occurrence.
pub open spec fn distinct_seats(seats: Seq<Seq<char>>) -> Seq<Seq<char>>
    decreases seats.len(),
{
    if seats.len() == 0 {
        Seq::empty()
    } else {
        let before = distinct_seats(seats.drop_last());
        if before.contains(seats.last()) {
            before
        } else {
            before.push(seats.last())
        }
    }
}

/// The seat/active-session pairs as pairs of characters.
pub open spec fn activity_pairs(activity: Seq<SeatActivity>) -> Seq<(Seq<char>, Seq<char>)> {
    activity.map_values(|a: SeatActivity| (a.seat@, a.active_session@))
}

/// The active session reported for `seat` (the first report for it), if any.
pub open spec fn seat_active_session(activity: Seq<SeatActivity>, seat: Seq<char>) -> Option<Seq<char>> {
    first_value(activity_pairs(activity), seat)
}

/// Whether the `i`-th record is active: it is the session reported as its
/// seat's active one.
pub open spec fn is_active(records: Seq<SessionRecord>, activity: Seq<SeatActivity>, i: int) -> bool {
    seat_active_session(activity, records[i].seat@) == Some(records[i].session_id@)
}

/// The first occurrence is found where every earlier entry differs.
pub proof fn lemma_first_index_of(seats: Seq<Seq<char>>, seat: Seq<char>, k: int)
    requires
        0 <= k < seats.len(),
        seats[k] == seat,
        forall|m: int| 0 <= m < k ==> seats[m] != seat,
    ensures
        first_index_of(seats, seat) == k,
    decreases k,
{
    if k > 0 {
        assert(seats[0] != seat);
        let rest = seats.drop_first();
        assert forall|m: int| 0 <= m < k - 1 implies rest[m] != seat by {
            assert(rest[m] == seats[m + 1]);
        }
        lemma_first_index_of(rest, seat, k - 1);
    }
}

/// Where `seat` occurs, its first occurrence is at or before any occurrence.
pub proof fn lemma_first_index_found(seats: Seq<Seq<char>>, seat: Seq<char>, k: int)
    requires
        0 <= k < seats.len(),
        seats[k] == seat,
    ensures
        0 <= first_index_of(seats, seat) <= k,
        seats[first_index_of(seats, seat)] == seat,
        forall|m: int| 0 <= m < first_index_of(seats, seat) ==> seats[m] != seat,
    decreases k,
{
    if seats[0] != seat {
        let rest = seats.drop_first();
        lemma_first_index_found(rest, seat, k - 1);
        let f = first_index_of(rest, seat);
        assert forall|m: int| 0 <= m < f + 1 implies seats[m] != seat by {
            if m > 0 {
                assert(seats[m] == rest[m - 1]);
            }
        }
    }
}

/// A session is active exactly when the first report for its seat names its
/// id; nothing else of the session (user id, user name) counts, and a session
/// whose seat has no report is not active.
pub proof fn lemma_active_meaning(records: Seq<SessionRecord>, activity: Seq<SeatActivity>, i: int)
    requires
        0 <= i < records.len(),
    ensures
        is_active(records, activity, i) <==> exists|j: int|
            0 <= j < activity.len() && #[trigger] activity[j].seat@ == records[i].seat@ && (forall|m: int|
                0 <= m < j ==> activity[m].seat@ != records[i].seat@) && activity[j].active_session@
                == records[i].session_id@,
        (forall|k: int| 0 <= k < activity.len() ==> activity[k].seat@ != records[i].seat@) ==> !is_active(
            records,
            activity,
            i,
        ),
{
    let seat = records[i].seat@;
    let pairs = activity_pairs(activity);
    assert forall|k: int| 0 <= k < activity.len() implies pairs[k] == (activity[k].seat@, activity[k].active_session@) by {}
    lemma_first_value_meaning(pairs, seat);
    if forall|k: int| 0 <= k < activity.len() ==> activity[k].seat@ != seat {
        assert forall|k: int| 0 <= k < pairs.len() implies pairs[k].0 != seat by {
            assert(pairs[k].0 == activity[k].seat@);
        }
        if exists|j: int| 0 <= j < activity.len() && #[trigger] activity[j].seat@ == seat && (forall|m: int| 0 <= m < j ==> activity[m].seat@ != seat) && activity[j].active_session@ == records[i].session_id@ {
            let j = choose|j: int| 0 <= j < activity.len() && #[trigger] activity[j].seat@ == seat && (forall|m: int| 0 <= m < j ==> activity[m].seat@ != seat) && activity[j].active_session@ == records[i].session_id@;
            assert(activity[j].seat@ != seat);
        }
    } else {
        let k = choose|k: int| 0 <= k < activity.len() && activity[k].seat@ == seat;
        assert(pairs[k].0 == seat);
        let j = lemma_first_match(pairs, seat, k);
        assert forall|m: int| 0 <= m < j implies activity[m].seat@ != seat by {
            assert(pairs[m].0 == activity[m].seat@);
        }
        lemma_first_value_at(pairs, seat, j);
        assert(seat_active_session(activity, seat) == Some(activity[j].active_session@));
        assert(activity[j].seat@ == seat);
        if exists|j2: int| 0 <= j2 < activity.len() && #[trigger] activity[j2].seat@ == seat && (forall|m: int| 0 <= m < j2 ==> activity[m].seat@ != seat) && activity[j2].active_session@ == records[i].session_id@ {
            let j2 = choose|j2: int| 0 <= j2 < activity.len() && #[trigger] activity[j2].seat@ == seat && (forall|m: int| 0 <= m < j2 ==> activity[m].seat@ != seat) && activity[j2].active_session@ == records[i].session_id@;
            assert(j2 == j) by {
                if j2 < j {
                    assert(activity[j2].seat@ == seat);
                } else if j < j2 {
                    assert(activity[j].seat@ == seat);
                }
            }
        }
    }
}

/// Where session ids are distinct, at most one session of a seat is active.
pub proof fn lemma_one_active_per_seat(
    records: Seq<SessionRecord>,
    activity: Seq<SeatActivity>,
    i: int,
    j: int,
)
    requires
        0 <= i < records.len(),
        0 <= j < records.len(),
        forall|k: int, l: int|
            0 <= k < l < records.len() ==> #[trigger] records[k].session_id@ != #[trigger] records[l].session_id@,
        records[i].seat@ == records[j].seat@,
        is_active(records, activity, i),
        is_active(records, activity, j),
    ensures
        i == j,
{
    if i < j {
        assert(records[i].session_id@ != records[j].session_id@);
    } else if j < i {
        assert(records[j].session_id@ != records[i].session_id@);
    }
}

/// Each seat occurs once among the seats to ask, and they are exactly the seats
/// that occur in the list.
pub proof fn lemma_distinct_seats(seats: Seq<Seq<char>>)
    ensures
        forall|a: int, b: int|
            0 <= a < b < distinct_seats(seats).len() ==> distinct_seats(seats)[a] != distinct_seats(
                seats,
            )[b],
        forall|s: Seq<char>| distinct_seats(seats).contains(s) <==> seats.contains(s),
    decreases seats.len(),
{
    if seats.len() > 0 {
        let rest = seats.drop_last();
        lemma_distinct_seats(rest);
        assert forall|s: Seq<char>| seats.contains(s) <==> (rest.contains(s) || s == seats.last()) by {
            if seats.contains(s) {
                let k = choose|k: int| 0 <= k < seats.len() && seats[k] == s;
                if k < seats.len() - 1 {
                    assert(rest[k] == s);
                }
            }
            if rest.contains(s) {
                let k = choose|k: int| 0 <= k < rest.len() && rest[k] == s;
                assert(seats[k] == s);
            }
            if s == seats.last() {
                assert(seats[seats.len() - 1] == s);
            }
        }
        let before = distinct_seats(rest);
        if !before.contains(seats.last()) {
            let d = before.push(seats.last());
            assert forall|s: Seq<char>| d.contains(s) <==> (before.contains(s) || s == seats.last()) by {
                if d.contains(s) {
                    let k = choose|k: int| 0 <= k < d.len() && d[k] == s;
                    if k < before.len() {
                        assert(before[k] == s);
                    }
                }
                if before.contains(s) {
                    let k = choose|k: int| 0 <= k < before.len() && before[k] == s;
                    assert(d[k] == s);
                }
                if s == seats.last() {
                    assert(d[d.len() - 1] == s);
                }
            }
            assert forall|a: int, b: int| 0 <= a < b < d.len() implies d[a] != d[b] by {
                if b == d.len() - 1 {
                    assert(before[a] == d[a]);
                } else {
                    assert(before[a] == d[a] && before[b] == d[b]);
                }
            }
        }
    }
}

/// The first occurrence of a seat is not moved by entries added after it.
proof fn lemma_first_index_push(seats: Seq<Seq<char>>, x: Seq<char>, y: Seq<char>)
    requires
        seats.contains(y),
    ensures
        first_index_of(seats.push(x), y) == first_index_of(seats, y),
        first_index_of(seats, y) < seats.len(),
{
    let k = choose|k: int| 0 <= k < seats.len() && seats[k] == y;
    lemma_first_index_found(seats, y, k);
    let f = first_index_of(seats, y);
    let longer = seats.push(x);
    assert(longer[f] == y);
    assert forall|m: int| 0 <= m < f implies longer[m] != y by {
        assert(longer[m] == seats[m]);
    }
    lemma_first_index_of(longer, y, f);
}

/// The seats to ask come in the order in which the seats first occur.
pub proof fn lemma_distinct_seats_in_order(seats: Seq<Seq<char>>)
    ensures
        forall|a: int, b: int|
            0 <= a < b < distinct_seats(seats).len() ==> first_index_of(seats, distinct_seats(seats)[a])
                < first_index_of(seats, distinct_seats(seats)[b]),
    decreases seats.len(),
{
    if seats.len() > 0 {
        let rest = seats.drop_last();
        let x = seats.last();
        assert(rest.push(x) =~= seats);
        lemma_distinct_seats_in_order(rest);
        lemma_distinct_seats(rest);
        let before = distinct_seats(rest);
        assert forall|a: int| 0 <= a < before.len() implies first_index_of(seats, before[a])
            == first_index_of(rest, before[a]) && first_index_of(rest, before[a]) < rest.len() by {
            assert(before.contains(before[a]));
            lemma_first_index_push(rest, x, before[a]);
        }
        if !before.contains(x) {
            let d = before.push(x);
            assert(!rest.contains(x));
            assert forall|m: int| 0 <= m < seats.len() - 1 implies seats[m] != x by {
                assert(seats[m] == rest[m]);
            }
            lemma_first_index_of(seats, x, seats.len() - 1);
            assert forall|a: int, b: int| 0 <= a < b < d.len() implies first_index_of(seats, d[a])
                < first_index_of(seats, d[b]) by {
                assert(d[a] == before[a]);
                if b < d.len() - 1 {
                    assert(d[b] == before[b]);
                } else {
                    assert(d[b] == x);
                }
            }
        }
    }
}

/// The path of a seat's object on logind's bus interface.
pub fn seat_object_path(seat: &str) -> (path: String)
    ensures
        path@ == "/org/freedesktop/login1/seat/"@ + seat@,
{
    let prefix: String = "/org/freedesktop/login1/seat/".to_owned();
    prefix.concat(seat)
}

/// Whether `list` holds a string equal to `s`.
fn contains_string(list: &Vec<String>, s: &str) -> (res: bool)
    ensures
        res == string_views(list@).contains(s@),
{
    let mut i: usize = 0;
    while i < list.len()
        invariant
            i <= list@.len(),
            forall|k: int| 0 <= k < i ==> list@[k]@ != s@,
        decreases list@.len() - i,
    {
        if str_eq(list[i].as_str(), s) {
            assert(string_views(list@)[i as int] == s@);
            return true;
        }
        i = i + 1;
    }
    assert forall|k: int| 0 <= k < string_views(list@).len() implies string_views(list@)[k] != s@ by {
        assert(string_views(list@)[k] == list@[k]@);
    }
    false
}

/// The seats whose active session has to be asked: each seat of the records
/// once, in the order in which the seats first occur.
pub fn seats_to_query(records: &Vec<SessionRecord>) -> (seats: Vec<String>)
    ensures
        string_views(seats@) == distinct_seats(record_seats(records@)),
{
    let ghost all = record_seats(records@);
    let mut seats: Vec<String> = Vec::new();
    let mut i: usize = 0;
    assert(string_views(seats@) =~= distinct_seats(all.take(0)));
    while i < records.len()
        invariant
            all == record_seats(records@),
            i <= records@.len(),
            string_views(seats@) == distinct_seats(all.take(i as int)),
        decreases records@.len() - i,
    {
        let seat: &String = &records[i].seat;
        assert(all.take(i + 1).drop_last() =~= all.take(i as int));
        assert(all.take(i + 1).last() == seat@);
        if !contains_string(&seats, seat.as_str()) {
            let ghost prev = seats@;
            seats.push(seat.clone());
            assert(string_views(seats@) =~= string_views(prev).push(seat@));
        }
        i = i + 1;
    }
    assert(all.take(i as int) =~= all);
    seats
}

/// The active session that `activity` reports for `seat`, if it reports one.
fn find_active_session<'a>(activity: &'a Vec<SeatActivity>, seat: &str) -> (res: Option<&'a String>)
    ensures
        match res {
            Some(id) => seat_active_session(activity@, seat@) == Some(id@),
            None => seat_active_session(activity@, seat@) is None,
        },
{
    let ghost pairs = activity_pairs(activity@);
    let mut i: usize = 0;
    assert(pairs.skip(0) =~= pairs);
    while i < activity.len()
        invariant
            pairs == activity_pairs(activity@),
            i <= activity@.len(),
            first_value(pairs, seat@) == first_value(pairs.skip(i as int), seat@),
        decreases activity@.len() - i,
    {
        proof {
            lemma_first_value_step(pairs, seat@, i as int);
        }
        if str_eq(activity[i].seat.as_str(), seat) {
            return Some(&activity[i].active_session);
        }
        i = i + 1;
    }
    assert(pairs.skip(i as int).len() == 0);
    None
}

/// The session that the `i`-th record describes, marked active when it is its
/// seat's reported active session.
fn session_at(records: &Vec<SessionRecord>, activity: &Vec<SeatActivity>, i: usize) -> (s: Session)
    requires
        i < records@.len(),
    ensures
        s.session_id@ == records@[i as int].session_id@,
        s.user_id == records@[i as int].user_id,
        s.user_name@ == records@[i as int].user_name@,
        s.seat@ == records@[i as int].seat@,
        s.active == is_active(records@, activity@, i as int),
{
    let record: &SessionRecord = &records[i];
    let active: bool = match find_active_session(activity, record.seat.as_str()) {
        Some(id) => id.eq(&record.session_id),
        None => false,
    };
    Session {
        session_id: record.session_id.clone(),
        user_id: record.user_id,
        user_name: record.user_name.clone(),
        seat: record.seat.clone(),
        active,
    }
}

/// The sessions of logind's list, in its order, each marked active exactly when
/// it is the session reported as its seat's active one.
pub fn assemble_sessions(records: &Vec<SessionRecord>, activity: &Vec<SeatActivity>) -> (sessions: Vec<Session>)
    ensures
        sessions@.len() == records@.len(),
        forall|i: int|
            0 <= i < records@.len() ==> {
                &&& (#[trigger] sessions@[i]).session_id@ == records@[i].session_id@
                &&& sessions@[i].user_id == records@[i].user_id
                &&& sessions@[i].user_name@ == records@[i].user_name@
                &&& sessions@[i].seat@ == records@[i].seat@
                &&& sessions@[i].active == is_active(records@, activity@, i)
            },
{
    let mut sessions: Vec<Session> = Vec::new();
    let mut i: usize = 0;
    while i < records.len()
        invariant
            i <= records@.len(),
            sessions@.len() == i,
            forall|k: int|
                0 <= k < i ==> {
                    &&& (#[trigger] sessions@[k]).session_id@ == records@[k].session_id@
                    &&& sessions@[k].user_id == records@[k].user_id
                    &&& sessions@[k].user_name@ == records@[k].user_name@
                    &&& sessions@[k].seat@ == records@[k].seat@
                    &&& sessions@[k].active == is_active(records@, activity@, k)
                },
        decreases records@.len() - i,
    {
        let s = session_at(records, activity, i);
        sessions.push(s);
        i = i + 1;
    }
    sessions
}

/// The seat of each session, in order.
pub fn seats_of_sessions(sessions: &Vec<Session>) -> (seats: Vec<String>)
    ensures
        string_views(seats@) == sessions@.map_values(|s: Session| s.seat@),
{
    let mut seats: Vec<String> = Vec::new();
    let mut i: usize = 0;
    while i < sessions.len()
        invariant
            i <= sessions@.len(),
            string_views(seats@) == sessions@.take(i as int).map_values(|s: Session| s.seat@),
        decreases sessions@.len() - i,
    {
        let ghost prev = seats@;
        seats.push(sessions[i].seat.clone());
        assert(string_views(seats@) =~= string_views(prev).push(sessions@[i as int].seat@));
        assert(sessions@.take(i + 1).map_values(|s: Session| s.seat@) =~= sessions@.take(
            i as int,
        ).map_values(|s: Session| s.seat@).push(sessions@[i as int].seat@));
        i = i + 1;
    }
    assert(sessions@.take(i as int) =~= sessions@);
    seats
}

} // verus!
