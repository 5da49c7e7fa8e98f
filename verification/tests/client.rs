use osc::client::{OscClient, DEFAULT_TIMEOUT_MICROS};
use osc::errors::{Error, SocketError};
use osc::{Arg, OscMessage};

fn message(address: &str, marker: i32) -> OscMessage {
    OscMessage::new(address, vec![Arg::Int(marker)])
}

/// Lets `arrivals` come in while an address that none of them has is awaited.
fn queue_up(client: &mut OscClient, arrivals: Vec<OscMessage>) {
    assert!(client.wait_for("/unrelated").is_none());
    for arrival in arrivals {
        let polled = client.handle_waiting_errors(Ok(arrival), "/unrelated");
        assert!(matches!(polled, Ok(None)));
    }
}

#[test]
fn correlation_keeps_arrival_order() {
    let mut client = OscClient::new(1024, None);
    let (a, b, c) = (message("/x", 1), message("/y", 2), message("/x", 3));
    queue_up(&mut client, vec![a.clone(), b.clone(), c.clone()]);
    assert_eq!(client.queued(), 3);

    assert!(client.wait_for("/x") == Some(a));
    assert!(client.wait_for("/x") == Some(c));
    assert!(client.wait_for("/x").is_none());
    assert_eq!(client.queued(), 1);
    assert!(client.wait_for("/y") == Some(b));
    assert_eq!(client.queued(), 0);
}

#[test]
fn claiming_from_the_middle_keeps_the_rest_in_order() {
    let mut client = OscClient::new(64, None);
    queue_up(
        &mut client,
        vec![message("/a", 1), message("/b", 2), message("/c", 3), message("/b", 4)],
    );
    assert!(client.wait_for("/b") == Some(message("/b", 2)));
    assert!(client.wait_for("/a") == Some(message("/a", 1)));
    assert!(client.wait_for("/b") == Some(message("/b", 4)));
    assert!(client.wait_for("/c") == Some(message("/c", 3)));
    assert_eq!(client.queued(), 0);
}

#[test]
fn matching_poll_ends_the_wait_without_queueing() {
    let mut client = OscClient::new(64, None);
    let polled = client.handle_waiting_errors(Ok(message("/x", 9)), "/x");
    assert!(matches!(polled, Ok(Some(m)) if m == message("/x", 9)));
    assert_eq!(client.queued(), 0);
}

#[test]
fn address_must_match_exactly() {
    let mut client = OscClient::new(64, None);
    assert!(matches!(client.handle_waiting_errors(Ok(message("/x/", 1)), "/x"), Ok(None)));
    assert!(matches!(client.handle_waiting_errors(Ok(message("/X", 2)), "/x"), Ok(None)));
    assert!(matches!(client.handle_waiting_errors(Ok(message("", 3)), "/x"), Ok(None)));
    assert_eq!(client.queued(), 3);
    assert!(client.wait_for("/x").is_none());
    assert!(client.wait_for("") == Some(message("", 3)));
}

#[test]
fn empty_poll_is_not_an_error() {
    let mut client = OscClient::new(64, None);
    queue_up(&mut client, vec![message("/y", 1)]);
    let polled = client.handle_waiting_errors(Err(Error::Socket(SocketError::WouldBlock)), "/x");
    assert!(matches!(polled, Ok(None)));
    assert_eq!(client.queued(), 1);
}

#[test]
fn other_failures_end_the_wait() {
    let mut client = OscClient::new(64, None);
    queue_up(&mut client, vec![message("/y", 1)]);

    let refused = Error::Socket(SocketError::Other("connection refused".to_string()));
    assert!(matches!(
        client.handle_waiting_errors(Err(refused), "/x"),
        Err(Error::Socket(SocketError::Other(text))) if text == "connection refused"
    ));
    let late = Error::Socket(SocketError::TimedOut(5));
    assert!(matches!(
        client.handle_waiting_errors(Err(late), "/x"),
        Err(Error::Socket(SocketError::TimedOut(5)))
    ));
    assert!(matches!(
        client.handle_waiting_errors(Err(Error::Alignment(3, 4)), "/x"),
        Err(Error::Alignment(3, 4))
    ));
    assert!(matches!(
        client.handle_waiting_errors(Err(Error::NoData(4)), "/x"),
        Err(Error::NoData(4))
    ));
    assert_eq!(client.queued(), 1);
}

#[test]
fn wait_times_out_once_the_timeout_is_reached() {
    let timeout = 100_000u64;
    let mut client = OscClient::new(1024, Some(timeout));
    assert!(client.wait_for("/never").is_none());

    // A transport that yields nothing for `/never`, and a clock that advances by
    // 7 ms with every poll.
    let mut elapsed = 0u64;
    let mut polls = 0u32;
    let failure = loop {
        let polled = if polls % 3 == 0 {
            Ok(message("/other", polls as i32))
        } else {
            Err(Error::Socket(SocketError::WouldBlock))
        };
        polls += 1;
        match client.handle_waiting_errors(polled, "/never") {
            Ok(None) => {}
            Ok(Some(_)) => panic!("nothing was sent to /never"),
            Err(e) => break e,
        }
        elapsed += 7_000;
        if let Err(e) = client.check_deadline(elapsed) {
            break e;
        }
    };
    match failure {
        Error::Socket(SocketError::TimedOut(after)) => {
            assert!(after >= timeout);
            assert!(after < timeout + 7_000);
            assert_eq!(after, 105_000);
        }
        other => panic!("not a timeout: {:?}", other),
    }
    assert_eq!(polls, 15);
    assert_eq!(client.queued(), 5);
}

#[test]
fn deadline_is_reached_at_the_timeout_exactly() {
    let client = OscClient::new(16, Some(250));
    assert!(client.check_deadline(0).is_ok());
    assert!(client.check_deadline(249).is_ok());
    assert!(matches!(client.check_deadline(250), Err(Error::Socket(SocketError::TimedOut(250)))));
    assert!(matches!(
        client.check_deadline(u64::MAX),
        Err(Error::Socket(SocketError::TimedOut(u64::MAX)))
    ));
    let impatient = OscClient::new(16, Some(0));
    assert!(matches!(impatient.check_deadline(0), Err(Error::Socket(SocketError::TimedOut(0)))));
}

#[test]
fn default_timeout_is_one_second() {
    assert_eq!(DEFAULT_TIMEOUT_MICROS, 1_000_000);
    let client = OscClient::new(512, None);
    assert_eq!(client.timeout_micros(), 1_000_000);
    assert_eq!(client.buffer_size(), 512);
    assert_eq!(client.queued(), 0);
    assert_eq!(OscClient::new(8, Some(42)).timeout_micros(), 42);
}

#[test]
fn clone_starts_with_an_empty_queue() {
    let mut client = OscClient::new(256, Some(77));
    queue_up(&mut client, vec![message("/a", 1), message("/b", 2)]);
    let mut second = client.try_clone();
    assert_eq!(second.queued(), 0);
    assert_eq!(second.timeout_micros(), 77);
    assert_eq!(second.buffer_size(), 256);
    assert!(second.wait_for("/a").is_none());
    assert_eq!(client.queued(), 2);
    assert!(client.wait_for("/a") == Some(message("/a", 1)));
}

#[test]
fn receive_outcome_is_failure_or_decoding() {
    let client = OscClient::new(1024, None);
    assert!(matches!(
        client.recv(Err(SocketError::WouldBlock)),
        Err(Error::Socket(SocketError::WouldBlock))
    ));
    assert!(matches!(
        client.recv(Err(SocketError::Other("reset".to_string()))),
        Err(Error::Socket(SocketError::Other(text))) if text == "reset"
    ));

    let sent = message("/x", 5);
    let mut buffer = sent.build().unwrap();
    buffer.resize(1024, 0);
    assert!(matches!(client.recv(Ok(&buffer)), Ok(m) if m == sent));
    assert!(matches!(client.recv(Ok(&buffer[..1023])), Err(Error::Alignment(1023, 4))));
}

#[test]
fn wait_through_receive_outcomes() {
    let mut client = OscClient::new(1024, None);
    let datagrams = [
        message("/meter", 1).build().unwrap(),
        message("/info", 2).build().unwrap(),
        message("/meter", 3).build().unwrap(),
    ];
    assert!(client.wait_for("/info").is_none());
    let mut answer = None;
    for datagram in &datagrams {
        let received = client.recv(Ok(datagram));
        if let Some(m) = client.handle_waiting_errors(received, "/info").unwrap() {
            answer = Some(m);
            break;
        }
    }
    assert!(answer == Some(message("/info", 2)));
    assert_eq!(client.queued(), 1);
    assert!(client.wait_for("/meter") == Some(message("/meter", 1)));
}
