use whoisit::error::IdentError;
use whoisit::session::{
    invalid_port_response, no_user_response, userid_response, Action, Event, Session,
    SessionState, IDENT_PORT, MAX_QUERY_LENGTH,
};
use whoisit::target::IpAddress;

fn peer() -> IpAddress {
    IpAddress::V6 { segments: [0, 0, 0, 0, 0, 0xffff, 0xc000, 0x0205] }
}

fn sent(action: &Action) -> &str {
    match action {
        Action::SendResponse { line } => line,
        other => panic!("no response: {other:?}"),
    }
}

fn looked_up(action: &Action) -> &[String] {
    match action {
        Action::RunLookup { arguments } => arguments,
        other => panic!("no lookup: {other:?}"),
    }
}

fn answer(peer: IpAddress, query: &str, listing: &[u8]) -> String {
    let (session, _) = Session::start(peer);
    let (session, action) = session.step(Event::Query(query.to_string()));
    looked_up(&action);
    let (_, action) = session.step(Event::LookupOutput(listing.to_vec()));
    sent(&action).to_string()
}

#[test]
fn session_starts_by_reading_the_query() {
    let (session, action) = Session::start(peer());
    assert!(matches!(action, Action::ReadQuery));
    assert!(matches!(session.state, SessionState::AwaitingQuery));
    assert!(!session.is_closed());
    assert_eq!(session.result(), None);
}

#[test]
fn answers_with_the_owner() {
    let (session, _) = Session::start(peer());
    let (session, action) = session.step(Event::Query("4000, 5000".to_string()));
    assert_eq!(looked_up(&action), ["-i", "4TCP@192.0.2.5:5000", "-F", "Ln", "-n"]);
    assert!(matches!(&session.state, SessionState::Invoking { query, local_port: 4000 } if query == "4000, 5000"));
    let listing = b"Lalice\nn192.0.2.1:4000->192.0.2.5:5000\n".to_vec();
    let (session, action) = session.step(Event::LookupOutput(listing));
    assert_eq!(sent(&action), "4000, 5000 : USERID : UNIX : alice\r");
    assert!(matches!(session.state, SessionState::Responding { result: Ok(()) }));
    assert_eq!(session.result(), None);
    let (session, action) = session.step(Event::ResponseSent);
    assert!(matches!(action, Action::Close));
    assert!(session.is_closed());
    assert_eq!(session.result(), Some(Ok(())));
}

#[test]
fn answers_no_user_when_nothing_matches() {
    let (session, _) = Session::start(peer());
    let (session, _) = session.step(Event::Query("4000, 5000".to_string()));
    let listing = b"Lalice\nn192.0.2.1:4001->192.0.2.5:5000\n".to_vec();
    let (session, action) = session.step(Event::LookupOutput(listing));
    assert_eq!(sent(&action), "4000, 5000 : ERROR : NO-USER\r");
    let (session, action) = session.step(Event::ResponseSent);
    assert!(matches!(action, Action::Close));
    assert_eq!(session.result(), Some(Ok(())));
}

#[test]
fn line_that_is_no_text_does_not_hide_the_owner() {
    let listing = b"\xff\nLalice\nn127.0.0.1:4000->127.0.0.1:80\n";
    assert_eq!(answer(peer(), "4000, 80", listing), "4000, 80 : USERID : UNIX : alice\r");
    let listing = b"Lalice\nL\xff\nn127.0.0.1:4000->127.0.0.1:80\n";
    assert_eq!(answer(peer(), "4000, 80", listing), "4000, 80 : ERROR : NO-USER\r");
}

#[test]
fn empty_listing_is_no_error() {
    assert_eq!(answer(peer(), "1, 2", b""), "1, 2 : ERROR : NO-USER\r");
}

#[test]
fn answers_invalid_port_and_closes() {
    let (session, _) = Session::start(peer());
    let (session, action) = session.step(Event::Query("not-a-port, 80".to_string()));
    assert_eq!(sent(&action), "not-a-port, 80 : ERROR : INVALID-PORT\r");
    assert!(matches!(
        session.state,
        SessionState::Responding { result: Err(IdentError::InvalidPort) }
    ));
    let (session, action) = session.step(Event::ResponseSent);
    assert!(matches!(action, Action::Close));
    assert_eq!(session.result(), Some(Err(IdentError::InvalidPort)));
}

#[test]
fn query_is_echoed_as_it_came() {
    let listing = b"Lalice\nn192.0.2.1:4000->192.0.2.5:5000\n";
    assert_eq!(
        answer(peer(), "  4000 ,5000\t", listing),
        "  4000 ,5000\t : USERID : UNIX : alice\r"
    );
    let (session, _) = Session::start(peer());
    let (_, action) = session.step(Event::Query(" 1 , 2 , 3 ".to_string()));
    assert_eq!(sent(&action), " 1 , 2 , 3  : ERROR : INVALID-PORT\r");
}

#[test]
fn no_query_closes_without_a_response() {
    let (session, _) = Session::start(peer());
    let (session, action) = session.step(Event::NoQuery);
    assert!(matches!(action, Action::Close));
    assert_eq!(session.result(), Some(Err(IdentError::NoQuery)));
}

#[test]
fn failed_lookup_closes_without_a_response() {
    let (session, _) = Session::start(peer());
    let (session, _) = session.step(Event::Query("4000, 5000".to_string()));
    let (session, action) = session.step(Event::LookupFailed);
    assert!(matches!(action, Action::Close));
    assert_eq!(session.result(), Some(Err(IdentError::Lookup)));
}

#[test]
fn lookup_is_for_the_peer_and_the_remote_port() {
    let (session, _) = Session::start(IpAddress::V4 { octets: [10, 1, 2, 3] });
    let (_, action) = session.step(Event::Query("22, 50123".to_string()));
    assert_eq!(looked_up(&action)[1], "4TCP@10.1.2.3:50123");
    let (session, _) = Session::start(IpAddress::V6 { segments: [0x2001, 0xdb8, 0, 0, 0, 0, 0, 7] });
    let (_, action) = session.step(Event::Query("22, 50123".to_string()));
    assert_eq!(looked_up(&action)[1], "6TCP@[2001:db8::7]:50123");
}

#[test]
fn closed_session_stays_closed() {
    let (session, _) = Session::start(peer());
    let (session, _) = session.step(Event::NoQuery);
    let (session, action) = session.step(Event::Query("1, 2".to_string()));
    assert!(matches!(action, Action::Nothing));
    let (session, action) = session.step(Event::LookupOutput(Vec::new()));
    assert!(matches!(action, Action::Nothing));
    let (session, action) = session.step(Event::ResponseSent);
    assert!(matches!(action, Action::Nothing));
    assert_eq!(session.result(), Some(Err(IdentError::NoQuery)));
}

#[test]
fn event_out_of_turn_changes_nothing() {
    let (session, _) = Session::start(peer());
    let (session, action) = session.step(Event::LookupOutput(b"Lx\nn:1->\n".to_vec()));
    assert!(matches!(action, Action::Nothing));
    let (session, action) = session.step(Event::ResponseSent);
    assert!(matches!(action, Action::Nothing));
    assert!(matches!(session.state, SessionState::AwaitingQuery));
    let (session, _) = session.step(Event::Query("1, 2".to_string()));
    let (session, action) = session.step(Event::Query("3, 4".to_string()));
    assert!(matches!(action, Action::Nothing));
    let (session, action) = session.step(Event::NoQuery);
    assert!(matches!(action, Action::Nothing));
    assert!(matches!(&session.state, SessionState::Invoking { query, local_port: 1 } if query == "1, 2"));
    let (session, action) = session.step(Event::LookupOutput(b"Lx\nn:1->\n".to_vec()));
    assert_eq!(sent(&action), "1, 2 : USERID : UNIX : x\r");
    let (session, action) = session.step(Event::LookupOutput(b"Ly\nn:1->\n".to_vec()));
    assert!(matches!(action, Action::Nothing));
    let (session, action) = session.step(Event::LookupFailed);
    assert!(matches!(action, Action::Nothing));
    assert!(matches!(session.state, SessionState::Responding { result: Ok(()) }));
}

#[test]
fn sessions_taken_in_turns_get_their_own_answers() {
    let listing: &[u8] = b"Lalice\nn192.0.2.1:4000->192.0.2.5:80\nLbob\nn192.0.2.1:5000->192.0.2.5:80\nLcarol\nn192.0.2.1:6000->192.0.2.5:80\n";
    let queries = ["4000, 80", "5000, 80", "6000, 80", "7000, 80", "x, 80"];
    let expected = [
        "4000, 80 : USERID : UNIX : alice\r",
        "5000, 80 : USERID : UNIX : bob\r",
        "6000, 80 : USERID : UNIX : carol\r",
        "7000, 80 : ERROR : NO-USER\r",
        "x, 80 : ERROR : INVALID-PORT\r",
    ];
    let mut sessions: Vec<Option<Session>> =
        queries.iter().map(|_| Some(Session::start(peer()).0)).collect();
    let mut answers: Vec<Option<String>> = queries.iter().map(|_| None).collect();
    for i in (0..queries.len()).rev() {
        let session = sessions[i].take().unwrap();
        let (session, action) = session.step(Event::Query(queries[i].to_string()));
        if let Action::SendResponse { line } = action {
            answers[i] = Some(line);
        }
        sessions[i] = Some(session);
    }
    for i in 0..queries.len() {
        let session = sessions[i].take().unwrap();
        let (session, action) = session.step(Event::LookupOutput(listing.to_vec()));
        if let Action::SendResponse { line } = action {
            assert!(answers[i].is_none());
            answers[i] = Some(line);
        }
        sessions[i] = Some(session);
    }
    for i in 0..queries.len() {
        assert_eq!(answers[i].as_deref(), Some(expected[i]));
        let (session, action) = sessions[i].take().unwrap().step(Event::ResponseSent);
        assert!(matches!(action, Action::Close));
        assert!(session.is_closed());
    }
}

#[test]
fn response_lines() {
    assert_eq!(userid_response("4000, 5000", "alice"), "4000, 5000 : USERID : UNIX : alice\r");
    assert_eq!(no_user_response("4000, 5000"), "4000, 5000 : ERROR : NO-USER\r");
    assert_eq!(invalid_port_response("not-a-port, 80"), "not-a-port, 80 : ERROR : INVALID-PORT\r");
    assert_eq!(userid_response("", ""), " : USERID : UNIX : \r");
}

#[test]
fn query_lines_are_at_most_1024_bytes() {
    assert_eq!(MAX_QUERY_LENGTH, 1024);
}

#[test]
fn service_port_is_113() {
    assert_eq!(IDENT_PORT, 113);
}
