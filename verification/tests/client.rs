use q3_client::client::{DEFAULT_TIMEOUT_SECS, NANOS_PER_SEC};
use q3_client::transport::{
    first_step, next_step, request, Action, Step, TransportError, REPLY_CAPACITY,
};
use q3_client::{Q3Client, Q3ClientOptions, Timeout};

#[test]
fn client_default_timeouts_are_five_seconds() {
    let client = Q3Client::new("127.0.0.1:27960".to_string());
    let options = client.options();
    assert_eq!(options.read_timeout, Timeout::from_secs(5));
    assert_eq!(options.write_timeout, Timeout::from_secs(5));
    assert_eq!(options.read_timeout.as_secs(), 5);
    assert_eq!(options.read_timeout.subsec_nanos(), 0);
    assert_eq!(options.write_timeout.as_secs(), 5);
    assert_eq!(options.write_timeout.subsec_nanos(), 0);
    assert_eq!(DEFAULT_TIMEOUT_SECS, 5);
}

#[test]
fn client_keeps_hostname() {
    let client = Q3Client::new("example.org:27960".to_string());
    assert_eq!(client.hostname(), "example.org:27960");
}

#[test]
fn client_keeps_options() {
    let options = Q3ClientOptions {
        read_timeout: Timeout::new(1, 500_000_000).unwrap(),
        write_timeout: Timeout::from_secs(7),
    };
    let client = Q3Client::new_with_options("h:1".to_string(), options);
    assert_eq!(client.hostname(), "h:1");
    assert_eq!(client.options(), options);
    assert_eq!(client.options().read_timeout.as_secs(), 1);
    assert_eq!(client.options().read_timeout.subsec_nanos(), 500_000_000);
    assert_eq!(client.options().write_timeout.as_secs(), 7);
    assert_eq!(client.options().write_timeout.subsec_nanos(), 0);
}

#[test]
fn timeout_takes_less_than_a_second_of_nanoseconds() {
    assert_eq!(NANOS_PER_SEC, 1_000_000_000);
    assert!(Timeout::new(0, 0).is_some());
    assert!(Timeout::new(u64::MAX, 999_999_999).is_some());
    assert!(Timeout::new(0, 1_000_000_000).is_none());
    assert!(Timeout::new(3, u32::MAX).is_none());
    assert_eq!(Timeout::new(9, 0), Some(Timeout::from_secs(9)));
}

#[test]
fn request_is_marker_and_command() {
    let datagram = request();
    assert_eq!(datagram.len(), 13);
    assert_eq!(datagram, b"\xff\xff\xff\xffgetstatus".to_vec());
    assert_eq!(&datagram[..4], &[0xff, 0xff, 0xff, 0xff]);
    assert_eq!(&datagram[4..], "getstatus".as_bytes());
}

#[test]
fn reply_capacity_is_1024_bytes() {
    assert_eq!(REPLY_CAPACITY, 1024);
}

#[test]
fn steps_follow_in_order() {
    let mut taken = vec![first_step()];
    let mut step = first_step();
    while let Some(next) = next_step(step, true).unwrap() {
        taken.push(next);
        step = next;
    }
    assert_eq!(
        taken,
        vec![Step::Bind, Step::SetReadTimeout, Step::SetWriteTimeout, Step::Send, Step::Receive]
    );
}

#[test]
fn failed_step_ends_the_query() {
    assert_eq!(next_step(Step::Bind, false), Err(TransportError::Bind));
    assert_eq!(next_step(Step::SetReadTimeout, false), Err(TransportError::Timeout));
    assert_eq!(next_step(Step::SetWriteTimeout, false), Err(TransportError::Timeout));
    assert_eq!(next_step(Step::Send, false), Err(TransportError::Send));
    assert_eq!(next_step(Step::Receive, false), Err(TransportError::Receive));
}

#[test]
fn last_step_has_no_successor() {
    assert_eq!(next_step(Step::Receive, true), Ok(None));
    assert_eq!(next_step(Step::Send, true), Ok(Some(Step::Receive)));
}

#[test]
fn actions_carry_the_values_of_the_client() {
    let options = Q3ClientOptions {
        read_timeout: Timeout::new(1, 500_000_000).unwrap(),
        write_timeout: Timeout::from_secs(7),
    };
    let client = Q3Client::new_with_options("example.org:27960".to_string(), options);
    assert_eq!(client.action(Step::Bind), Action::Bind { local: "0.0.0.0:0".to_string() });
    assert_eq!(
        client.action(Step::SetReadTimeout),
        Action::SetReadTimeout { timeout: Timeout::new(1, 500_000_000).unwrap() }
    );
    assert_eq!(
        client.action(Step::SetWriteTimeout),
        Action::SetWriteTimeout { timeout: Timeout::from_secs(7) }
    );
    assert_eq!(
        client.action(Step::Send),
        Action::Send {
            datagram: b"\xff\xff\xff\xffgetstatus".to_vec(),
            to: "example.org:27960".to_string()
        }
    );
    assert_eq!(client.action(Step::Receive), Action::Receive { capacity: 1024 });
}

#[test]
fn actions_of_default_client_wait_five_seconds() {
    let client = Q3Client::new("h:1".to_string());
    assert_eq!(
        client.action(Step::SetReadTimeout),
        Action::SetReadTimeout { timeout: Timeout::from_secs(5) }
    );
    assert_eq!(
        client.action(Step::SetWriteTimeout),
        Action::SetWriteTimeout { timeout: Timeout::from_secs(5) }
    );
}

#[test]
fn client_can_be_asked_again() {
    let client = Q3Client::new("h:1".to_string());
    assert_eq!(client.action(Step::Send), client.action(Step::Send));
    assert_eq!(client.hostname(), "h:1");
}
