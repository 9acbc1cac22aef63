use rbn_lib::client::{Action, Event, Phase, Session, SessionError, GREETING_LEN};
use rbn_lib::filter::{FilterSpec, FrequencyRange};
use rbn_lib::RbnClient;

const LINE: &str = "DX de K1ABC-#:    14025.0  W2XYZ        CW     15 dB    25 WPM  CQ CQ CQ                       1234Z\n";

fn streaming(filter: FilterSpec) -> Session {
    let mut s = Session::new("N0CALL".to_string(), filter);
    assert!(matches!(s.step(Event::Start), Action::Connect));
    assert_eq!(s.phase, Phase::Connecting);
    assert!(matches!(s.step(Event::Connected), Action::ReadGreeting(GREETING_LEN)));
    assert_eq!(GREETING_LEN, 24);
    match s.step(Event::GreetingRead) {
        Action::SendLogin(v) => assert_eq!(v, b"N0CALL\r\n".to_vec()),
        _ => panic!("expected the login line"),
    }
    assert!(matches!(s.step(Event::LoginSent), Action::Poll));
    assert_eq!(s.phase, Phase::Streaming);
    s
}

fn open_filter() -> FilterSpec {
    FilterSpec { participant: None, bands: vec![] }
}

#[test]
fn session_delivers_parsed_spots() {
    let mut s = streaming(open_filter());
    assert!(matches!(s.step(Event::Ready { cancelled: false }), Action::ReadLine));
    match s.step(Event::LineRead { line: LINE.to_string(), cancelled: false }) {
        Action::Deliver(v) => {
            assert_eq!(v.len(), 1);
            assert_eq!(v[0].spotter, "K1ABC");
        }
        _ => panic!("expected a delivery"),
    }
    match s.step(Event::LineRead { line: "no spot here\n".to_string(), cancelled: false }) {
        Action::Deliver(v) => assert!(v.is_empty()),
        _ => panic!("expected a delivery"),
    }
}

#[test]
fn session_filters_spots() {
    let f = FilterSpec {
        participant: None,
        bands: vec![FrequencyRange { low: 7000000, high: 7300000 }],
    };
    let mut s = streaming(f);
    match s.step(Event::LineRead { line: LINE.to_string(), cancelled: false }) {
        Action::Deliver(v) => assert!(v.is_empty()),
        _ => panic!("expected a delivery"),
    }
}

#[test]
fn cancel_before_first_line_stops_without_reading() {
    let mut s = streaming(open_filter());
    assert!(matches!(s.step(Event::Ready { cancelled: true }), Action::Close));
    assert_eq!(s.phase, Phase::Stopped);
    assert!(matches!(s.step(Event::LineRead { line: LINE.to_string(), cancelled: false }), Action::Idle));
    assert!(matches!(s.step(Event::Ready { cancelled: false }), Action::Idle));
    assert_eq!(s.phase, Phase::Stopped);
}

#[test]
fn failures_end_the_session() {
    let mut s = Session::new("N0CALL".to_string(), open_filter());
    s.step(Event::Start);
    assert!(matches!(s.step(Event::ConnectFailed), Action::Fail(SessionError::Connection)));
    assert_eq!(s.phase, Phase::Stopped);

    let mut t = streaming(open_filter());
    assert!(matches!(t.step(Event::ReadFailed), Action::Fail(SessionError::Read)));
    assert_eq!(t.phase, Phase::Stopped);

    let mut u = Session::new("N0CALL".to_string(), open_filter());
    u.step(Event::Start);
    u.step(Event::Connected);
    assert!(matches!(u.step(Event::WriteFailed), Action::Fail(SessionError::Connection)));
}

#[test]
fn events_out_of_phase_are_ignored() {
    let mut s = Session::new("N0CALL".to_string(), open_filter());
    assert!(matches!(s.step(Event::LineRead { line: LINE.to_string(), cancelled: false }), Action::Idle));
    assert_eq!(s.phase, Phase::Disconnected);
}

#[test]
fn client_addresses() {
    let c = RbnClient::new("localhost:7000".to_string(), "N0CALL".to_string());
    assert_eq!(c.bind_addr(), "localhost:7000");
    assert_eq!(c.callsign(), "N0CALL");
    let d = RbnClient::new_default_addr("N0CALL".to_string());
    assert_eq!(d.bind_addr(), "telnet.reversebeacon.net:7000");
}

#[test]
fn stop_without_session_is_a_no_op() {
    let mut c = RbnClient::new_default_addr("N0CALL".to_string());
    assert_eq!(c.stop(), Ok(()));
}

#[test]
fn stop_reaches_a_running_session() {
    let mut c = RbnClient::new_default_addr("N0CALL".to_string());
    let (tx, rx) = std::sync::mpsc::channel();
    c.attach(tx);
    assert_eq!(c.stop(), Ok(()));
    assert_eq!(rx.try_recv(), Ok(true));
    drop(rx);
    assert_eq!(c.stop(), Ok(()));
    assert_eq!(c.stop(), Ok(()));
}

#[test]
fn session_delivers_every_accepted_spot() {
    let f = FilterSpec { participant: Some("DD4D".to_string()), bands: vec![] };
    let mut s = streaming(f);
    let line = "DX de AA1A-#: 7000.0 BB2B CW 1 dB 20 WPM CQ 0100Z DX de CC3C-#: 7001.0 DD4D CW 2 dB 21 WPM CQ 0200Z\n";
    match s.step(Event::LineRead { line: line.to_string(), cancelled: false }) {
        Action::Deliver(v) => {
            assert_eq!(v.len(), 1);
            assert_eq!(v[0].spotter, "CC3C");
        }
        _ => panic!("expected a delivery"),
    }
    let mut t = streaming(open_filter());
    match t.step(Event::LineRead { line: line.to_string(), cancelled: false }) {
        Action::Deliver(v) => assert_eq!(v.len(), 2),
        _ => panic!("expected a delivery"),
    }
}

#[test]
fn stop_during_a_read_drops_that_line() {
    let mut s = streaming(open_filter());
    assert!(matches!(s.step(Event::Ready { cancelled: false }), Action::ReadLine));
    assert!(matches!(
        s.step(Event::LineRead { line: LINE.to_string(), cancelled: true }),
        Action::Close
    ));
    assert_eq!(s.phase, Phase::Stopped);
    assert!(matches!(
        s.step(Event::LineRead { line: LINE.to_string(), cancelled: false }),
        Action::Idle
    ));
}
