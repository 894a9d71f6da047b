use mongoproxy::admin::{health_body, index_body, route, AdminRoute};
use mongoproxy::connection::{
    first_candidate, select_target, shuttle_exit, Connection, ConnectionAction, ConnectionEnd,
    ConnectionEvent, Phase, ResolveError, ShuttleExit, ShuttleStop, Tally,
};
use mongoproxy::text::str_equal;

#[test]
fn configured_upstream_is_the_target() {
    assert_eq!(select_target("localhost:1", None), Some(String::from("localhost:1")));
    assert_eq!(
        select_target("db:27017", Some(String::from("10.0.0.9:27017"))),
        Some(String::from("db:27017"))
    );
}

#[test]
fn transparent_mode_uses_the_original_destination() {
    assert_eq!(
        select_target("", Some(String::from("10.0.0.9:27017"))),
        Some(String::from("10.0.0.9:27017"))
    );
    assert_eq!(select_target("", None), None);
}

#[test]
fn first_candidate_is_used() {
    assert_eq!(first_candidate(vec!["a", "b", "c"]), Ok("a"));
    assert_eq!(first_candidate(vec![7]), Ok(7));
    assert_eq!(first_candidate(Vec::<u8>::new()), Err(ResolveError::AddressNotAvailable));
}

#[test]
fn clean_connection() {
    let mut tally = Tally::new();
    let mut connection = Connection::accept();
    tally.accepted();
    assert_eq!(connection.current_phase(), Phase::Accepted);
    assert_eq!(connection.step(ConnectionEvent::TargetFound), ConnectionAction::Dial);
    assert_eq!(connection.current_phase(), Phase::Dialing);
    assert_eq!(connection.step(ConnectionEvent::Connected), ConnectionAction::StartShuttles);
    assert_eq!(connection.current_phase(), Phase::Proxying);
    let action = connection.step(ConnectionEvent::ShuttleDone(ShuttleExit::Eof));
    assert_eq!(action, ConnectionAction::StopOtherShuttle);
    tally.record(action);
    assert_eq!(connection.current_phase(), Phase::Draining(ConnectionEnd::Clean));
    assert_eq!(tally, Tally { established: 1, disconnections: 0, errors: 0 });
    let action = connection.step(ConnectionEvent::ShuttleDone(ShuttleExit::Failed));
    assert_eq!(action, ConnectionAction::CountDisconnection);
    tally.record(action);
    assert_eq!(connection.current_phase(), Phase::Closed(ConnectionEnd::Clean));
    assert_eq!(tally, Tally { established: 1, disconnections: 1, errors: 0 });
}

#[test]
fn connection_with_io_error() {
    let mut tally = Tally::new();
    let mut connection = Connection::accept();
    tally.accepted();
    tally.record(connection.step(ConnectionEvent::TargetFound));
    tally.record(connection.step(ConnectionEvent::Connected));
    tally.record(connection.step(ConnectionEvent::ShuttleDone(ShuttleExit::Failed)));
    assert_eq!(connection.current_phase(), Phase::Draining(ConnectionEnd::Failed));
    let action = connection.step(ConnectionEvent::ShuttleDone(ShuttleExit::Eof));
    assert_eq!(action, ConnectionAction::CountError);
    tally.record(action);
    assert_eq!(connection.current_phase(), Phase::Closed(ConnectionEnd::Failed));
    assert_eq!(tally, Tally { established: 1, disconnections: 0, errors: 1 });
}

#[test]
fn upstream_refuses() {
    let mut tally = Tally::new();
    let mut connection = Connection::accept();
    tally.accepted();
    assert_eq!(select_target("localhost:1", None), Some(String::from("localhost:1")));
    tally.record(connection.step(ConnectionEvent::TargetFound));
    let action = connection.step(ConnectionEvent::ConnectFailed);
    assert_eq!(action, ConnectionAction::CountError);
    tally.record(action);
    assert_eq!(connection.current_phase(), Phase::Closed(ConnectionEnd::Failed));
    assert_eq!(tally, Tally { established: 1, disconnections: 0, errors: 1 });
    let mut next = Connection::accept();
    tally.accepted();
    assert_eq!(next.step(ConnectionEvent::TargetFound), ConnectionAction::Dial);
    assert_eq!(tally.established, 2);
}

#[test]
fn transparent_mode_with_no_original_destination() {
    let mut tally = Tally::new();
    let mut connection = Connection::accept();
    tally.accepted();
    assert_eq!(select_target("", None), None);
    let action = connection.step(ConnectionEvent::NoTarget);
    assert_eq!(action, ConnectionAction::CountError);
    tally.record(action);
    assert_eq!(connection.current_phase(), Phase::Closed(ConnectionEnd::Failed));
    assert_eq!(tally, Tally { established: 1, disconnections: 0, errors: 1 });
    let mut next = Connection::accept();
    tally.accepted();
    assert_eq!(next.step(ConnectionEvent::TargetFound), ConnectionAction::Dial);
}

#[test]
fn events_out_of_phase_change_nothing() {
    let mut connection = Connection::accept();
    for event in [
        ConnectionEvent::Connected,
        ConnectionEvent::ConnectFailed,
        ConnectionEvent::ShuttleDone(ShuttleExit::Eof),
    ]
    .iter()
    {
        assert_eq!(connection.step(*event), ConnectionAction::Nothing);
        assert_eq!(connection.current_phase(), Phase::Accepted);
    }
    connection.step(ConnectionEvent::TargetFound);
    for event in [
        ConnectionEvent::TargetFound,
        ConnectionEvent::NoTarget,
        ConnectionEvent::ShuttleDone(ShuttleExit::Failed),
    ]
    .iter()
    {
        assert_eq!(connection.step(*event), ConnectionAction::Nothing);
        assert_eq!(connection.current_phase(), Phase::Dialing);
    }
    connection.step(ConnectionEvent::Connected);
    assert_eq!(connection.step(ConnectionEvent::Connected), ConnectionAction::Nothing);
    assert_eq!(connection.step(ConnectionEvent::NoTarget), ConnectionAction::Nothing);
    assert_eq!(connection.current_phase(), Phase::Proxying);
}

#[test]
fn closed_connection_is_counted_once() {
    let mut tally = Tally::new();
    let mut connection = Connection::accept();
    tally.accepted();
    let events = [
        ConnectionEvent::TargetFound,
        ConnectionEvent::Connected,
        ConnectionEvent::ShuttleDone(ShuttleExit::Eof),
        ConnectionEvent::ShuttleDone(ShuttleExit::Eof),
        ConnectionEvent::ShuttleDone(ShuttleExit::Failed),
        ConnectionEvent::ConnectFailed,
        ConnectionEvent::NoTarget,
        ConnectionEvent::TargetFound,
    ];
    for event in events.iter() {
        let before = tally;
        tally.record(connection.step(*event));
        assert!(tally.established >= before.established);
        assert!(tally.disconnections >= before.disconnections);
        assert!(tally.errors >= before.errors);
    }
    assert_eq!(connection.current_phase(), Phase::Closed(ConnectionEnd::Clean));
    assert_eq!(tally, Tally { established: 1, disconnections: 1, errors: 0 });
}

#[test]
fn tally_counts_only_what_it_is_asked_to() {
    let mut tally = Tally::new();
    for action in [
        ConnectionAction::Dial,
        ConnectionAction::StartShuttles,
        ConnectionAction::StopOtherShuttle,
        ConnectionAction::Nothing,
    ]
    .iter()
    {
        tally.record(*action);
    }
    assert_eq!(tally, Tally { established: 0, disconnections: 0, errors: 0 });
    tally.record(ConnectionAction::CountError);
    tally.record(ConnectionAction::CountError);
    tally.record(ConnectionAction::CountDisconnection);
    assert_eq!(tally, Tally { established: 0, disconnections: 1, errors: 2 });
    let mut full = Tally { established: u64::MAX, disconnections: u64::MAX, errors: u64::MAX };
    full.accepted();
    full.record(ConnectionAction::CountError);
    full.record(ConnectionAction::CountDisconnection);
    assert_eq!(full, Tally { established: u64::MAX, disconnections: u64::MAX, errors: u64::MAX });
}

#[test]
fn admin_routes() {
    assert_eq!(route("GET", "/"), AdminRoute::Index);
    assert_eq!(route("GET", "/health"), AdminRoute::Health);
    assert_eq!(route("GET", "/metrics"), AdminRoute::Metrics);
    assert_eq!(route("GET", "/other"), AdminRoute::NotFound);
    assert_eq!(route("GET", ""), AdminRoute::NotFound);
    assert_eq!(route("GET", "/health/"), AdminRoute::NotFound);
    assert_eq!(route("GET", "/Metrics"), AdminRoute::NotFound);
    assert_eq!(route("POST", "/"), AdminRoute::NotFound);
    assert_eq!(route("POST", "/metrics"), AdminRoute::NotFound);
    assert_eq!(route("get", "/health"), AdminRoute::NotFound);
    assert_eq!(route("", "/"), AdminRoute::NotFound);
}

#[test]
fn admin_bodies() {
    assert_eq!(health_body(), "OK");
    assert_eq!(
        index_body(),
        "<a href='/metrics'>metrics</a>\n<br>\n<a href='/health'>health</a>\n"
    );
}

#[test]
fn text_is_compared_by_characters() {
    assert!(str_equal("", ""));
    assert!(str_equal("abc", "abc"));
    assert!(!str_equal("abc", "abd"));
    assert!(!str_equal("abc", "ab"));
    assert!(!str_equal("ab", "abc"));
    assert!(str_equal("h\u{e9}llo", "h\u{e9}llo"));
    assert!(!str_equal("h\u{e9}llo", "hello"));
}

#[test]
fn end_of_stream_is_a_clean_exit() {
    assert_eq!(shuttle_exit(ShuttleStop::ReadNothing), ShuttleExit::Eof);
    assert_eq!(shuttle_exit(ShuttleStop::IoError { unexpected_eof: true }), ShuttleExit::Eof);
    assert_eq!(shuttle_exit(ShuttleStop::IoError { unexpected_eof: false }), ShuttleExit::Failed);
}
