use input_focus::sessions::{
    assemble_sessions, seat_object_path, seats_of_sessions, seats_to_query, LoginProxy,
    SeatActivity, Session, SessionRecord,
};

fn rec(id: &str, uid: u32, user: &str, seat: &str) -> SessionRecord {
    SessionRecord { session_id: id.to_string(), user_id: uid, user_name: user.to_string(), seat: seat.to_string() }
}

fn act(seat: &str, id: &str) -> SeatActivity {
    SeatActivity { seat: seat.to_string(), active_session: id.to_string() }
}

#[test]
fn seat_path_is_under_login1() {
    assert_eq!(seat_object_path("seat0"), "/org/freedesktop/login1/seat/seat0");
    assert_eq!(seat_object_path(""), "/org/freedesktop/login1/seat/");
}

#[test]
fn each_seat_is_asked_once_in_first_order() {
    let records = vec![
        rec("13", 1001, "rella", "seat1"),
        rec("2", 1000, "duane", "seat0"),
        rec("14", 1002, "ann", "seat1"),
        rec("3", 1000, "duane", "seat0"),
    ];
    assert_eq!(seats_to_query(&records), vec!["seat1".to_string(), "seat0".to_string()]);
    assert!(seats_to_query(&vec![]).is_empty());
}

#[test]
fn one_session_per_seat_marks_the_active_ones() {
    let records = vec![rec("13", 1001, "rella", "seat0"), rec("5", 1003, "bo", "seat1")];
    let activity = vec![act("seat0", "13"), act("seat1", "7")];
    let sessions = assemble_sessions(&records, &activity);
    assert_eq!(
        sessions,
        vec![
            Session { session_id: "13".to_string(), user_id: 1001, user_name: "rella".to_string(), seat: "seat0".to_string(), active: true },
            Session { session_id: "5".to_string(), user_id: 1003, user_name: "bo".to_string(), seat: "seat1".to_string(), active: false },
        ]
    );
}

#[test]
fn later_session_on_a_seat_is_active_when_reported() {
    // From the notes: sessions 13 and 2 both on seat0, session 2 the active one.
    let records = vec![rec("13", 1001, "rella", "seat0"), rec("2", 1000, "duane", "seat0")];
    let sessions = assemble_sessions(&records, &vec![act("seat0", "2")]);
    assert_eq!(
        sessions,
        vec![
            Session { session_id: "13".to_string(), user_id: 1001, user_name: "rella".to_string(), seat: "seat0".to_string(), active: false },
            Session { session_id: "2".to_string(), user_id: 1000, user_name: "duane".to_string(), seat: "seat0".to_string(), active: true },
        ]
    );
}

#[test]
fn first_session_active_leaves_the_others_inactive() {
    let records = vec![rec("2", 1000, "duane", "seat0"), rec("13", 1001, "rella", "seat0")];
    let sessions = assemble_sessions(&records, &vec![act("seat0", "2")]);
    assert!(sessions[0].active);
    assert!(!sessions[1].active);
}

#[test]
fn at_most_one_active_session_per_seat() {
    let records = vec![
        rec("1", 1, "a", "seat0"),
        rec("2", 2, "b", "seat0"),
        rec("3", 3, "c", "seat1"),
        rec("4", 4, "d", "seat0"),
        rec("5", 5, "e", "seat1"),
    ];
    let sessions = assemble_sessions(&records, &vec![act("seat1", "5"), act("seat0", "4")]);
    let marks: Vec<bool> = sessions.iter().map(|s| s.active).collect();
    assert_eq!(marks, vec![false, false, false, true, true]);
}

#[test]
fn a_seat_without_report_is_not_active() {
    let records = vec![rec("1", 1, "a", "seat0")];
    let sessions = assemble_sessions(&records, &vec![act("seat1", "1")]);
    assert!(!sessions[0].active);
    assert_eq!(sessions[0].seat, "seat0");
}

#[test]
fn first_report_for_a_seat_counts() {
    let records = vec![rec("1", 1, "a", "seat0")];
    let sessions = assemble_sessions(&records, &vec![act("seat0", "9"), act("seat0", "1")]);
    assert!(!sessions[0].active);
}

#[test]
fn no_records_no_sessions() {
    assert!(assemble_sessions(&vec![], &vec![act("seat0", "1")]).is_empty());
}

#[test]
fn seats_of_sessions_in_order() {
    let records = vec![rec("13", 1001, "rella", "seat0"), rec("2", 1000, "duane", "seat1"), rec("4", 1, "c", "seat0")];
    let sessions = assemble_sessions(&records, &vec![]);
    assert_eq!(seats_of_sessions(&sessions), vec!["seat0".to_string(), "seat1".to_string(), "seat0".to_string()]);
}

#[test]
fn login_proxy_gives_back_its_proxy() {
    let login = LoginProxy::new(42u32);
    assert_eq!(*login.proxy(), 42);
    let login = LoginProxy::new("manager".to_string());
    assert_eq!(login.proxy(), "manager");
}
