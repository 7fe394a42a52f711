//! The exchange with the server: one datagram out, one datagram back.
//!
//! The library opens no socket. It says in which order the steps of a query
//! are taken, what each step does and with which values, and what the
//! failure of each step is called. The caller takes the steps on a socket of
//! its own.

use vstd::prelude::*;
use vstd::string::StringSliceAdditionalSpecFns;
use crate::client::{ClientView, Q3Client, Timeout, TimeoutView};

verus! {

/// The bytes that the reply has room for. What a longer reply holds beyond
/// them is lost.
pub const REPLY_CAPACITY: usize = 1024;

/// The request for the status of a server: four bytes 0xFF and the word
/// `getstatus` in ASCII, with nothing behind it.
pub open spec fn status_request() -> Seq<u8> {
    seq![
        0xffu8,
        0xffu8,
        0xffu8,
        0xffu8,
        0x67u8,
        0x65u8,
        0x74u8,
        0x73u8,
        0x74u8,
        0x61u8,
        0x74u8,
        0x75u8,
        0x73u8,
    ]
}

/// The datagram that asks a server for its status.
pub fn request() -> (datagram: Vec<u8>)
    ensures
        datagram@ == status_request(),
        datagram@.len() == 13,
{
    let command = "getstatus";
    let mut datagram: Vec<u8> = Vec::new();
    datagram.push(0xff);
    datagram.push(0xff);
    datagram.push(0xff);
    datagram.push(0xff);
    datagram.extend_from_slice(command.as_bytes());
    proof {
        reveal_strlit("getstatus");
        assert(command.is_ascii());
        assert(command.spec_bytes() == Seq::new(command@.len(), |i: int| command@[i] as u8));
    }
    datagram
}

/// The steps of a query, in the order in which they are taken.
#[derive(Debug, Clone, Copy, PartialEq, Eq, Structural)]
pub enum Step {
    /// The socket is opened.
    Bind,
    /// The socket gets the time that it waits for the reply.
    SetReadTimeout,
    /// The socket gets the time that it waits for the request to leave.
    SetWriteTimeout,
    /// The request goes to the server.
    Send,
    /// The reply comes in.
    Receive,
}

/// The step of a query that failed.
#[derive(Debug, Clone, Copy, PartialEq, Eq, Structural)]
pub enum TransportError {
    /// The socket could not be opened.
    Bind,
    /// The socket did not take a timeout.
    Timeout,
    /// The request did not leave: the address may name no server that can be reached.
    Send,
    /// No reply came: the time to wait for it may have passed.
    Receive,
}

/// What a step does on the socket.
#[derive(Debug, Clone, PartialEq, Eq)]
pub enum Action {
    /// Open a UDP socket at the local address `local`.
    Bind { local: String },
    /// Let the socket wait no longer than `timeout` for a datagram to come.
    SetReadTimeout { timeout: Timeout },
    /// Let the socket wait no longer than `timeout` for a datagram to leave.
    SetWriteTimeout { timeout: Timeout },
    /// Send `datagram` as one datagram to the address `to`.
    Send { datagram: Vec<u8>, to: String },
    /// Receive one datagram and keep its first `capacity` bytes at most.
    Receive { capacity: usize },
}

/// An action as plain values.
pub enum ActionView {
    Bind { local: Seq<char> },
    SetReadTimeout { timeout: TimeoutView },
    SetWriteTimeout { timeout: TimeoutView },
    Send { datagram: Seq<u8>, to: Seq<char> },
    Receive { capacity: nat },
}

impl View for Action {
    type V = ActionView;

    open spec fn view(&self) -> ActionView {
        match self {
            Action::Bind { local } => ActionView::Bind { local: local@ },
            Action::SetReadTimeout { timeout } => ActionView::SetReadTimeout { timeout: timeout@ },
            Action::SetWriteTimeout { timeout } => ActionView::SetWriteTimeout {
                timeout: timeout@,
            },
            Action::Send { datagram, to } => ActionView::Send { datagram: datagram@, to: to@ },
            Action::Receive { capacity } => ActionView::Receive { capacity: *capacity as nat },
        }
    }
}

/// The local address of the socket: every interface, and a port that the
/// system picks.
pub open spec fn any_address() -> Seq<char> {
    "0.0.0.0:0"@
}

/// What `step` does in a query of `client`: the socket is opened at
/// `any_address()`, it gets the two timeouts of the client, the request goes
/// to the server of the client, and the reply has `REPLY_CAPACITY` bytes of
/// room.
pub open spec fn action_of(client: ClientView, step: Step) -> ActionView {
    match step {
        Step::Bind => ActionView::Bind { local: any_address() },
        Step::SetReadTimeout => ActionView::SetReadTimeout { timeout: client.read_timeout },
        Step::SetWriteTimeout => ActionView::SetWriteTimeout { timeout: client.write_timeout },
        Step::Send => ActionView::Send { datagram: status_request(), to: client.hostname },
        Step::Receive => ActionView::Receive { capacity: REPLY_CAPACITY as nat },
    }
}

impl Q3Client {
    /// What `step` does in a query of this client.
    pub fn action(&self, step: Step) -> (action: Action)
        ensures
            action@ == action_of(self@, step),
    {
        match step {
            Step::Bind => Action::Bind { local: "0.0.0.0:0".to_owned() },
            Step::SetReadTimeout => Action::SetReadTimeout { timeout: self.options().read_timeout },
            Step::SetWriteTimeout => Action::SetWriteTimeout {
                timeout: self.options().write_timeout,
            },
            Step::Send => Action::Send { datagram: request(), to: self.hostname().to_owned() },
            Step::Receive => Action::Receive { capacity: REPLY_CAPACITY },
        }
    }
}

/// The step that follows `step`, if any does.
pub open spec fn step_after(step: Step) -> Option<Step> {
    match step {
        Step::Bind => Some(Step::SetReadTimeout),
        Step::SetReadTimeout => Some(Step::SetWriteTimeout),
        Step::SetWriteTimeout => Some(Step::Send),
        Step::Send => Some(Step::Receive),
        Step::Receive => None,
    }
}

/// What the failure of `step` is called.
pub open spec fn failure_of(step: Step) -> TransportError {
    match step {
        Step::Bind => TransportError::Bind,
        Step::SetReadTimeout => TransportError::Timeout,
        Step::SetWriteTimeout => TransportError::Timeout,
        Step::Send => TransportError::Send,
        Step::Receive => TransportError::Receive,
    }
}

/// The steps from `step` to the last, where each one succeeds.
pub open spec fn steps_from(step: Step) -> Seq<Step>
    decreases
        (match step {
            Step::Bind => 4nat,
            Step::SetReadTimeout => 3nat,
            Step::SetWriteTimeout => 2nat,
            Step::Send => 1nat,
            Step::Receive => 0nat,
        }),
{
    match step_after(step) {
        Some(next) => seq![step] + steps_from(next),
        None => seq![step],
    }
}

/// The step that a query begins with.
pub fn first_step() -> (step: Step)
    ensures
        step == Step::Bind,
{
    Step::Bind
}

/// What follows when `step` has been taken.
///
/// A step that failed ends the query with its failure: no step is taken
/// again and none is taken after it. A step that succeeded is followed by the
/// next one, and the last by none: the reply is there to be decoded.
pub fn next_step(step: Step, succeeded: bool) -> (next: Result<Option<Step>, TransportError>)
    ensures
        next == (if succeeded {
            Ok::<Option<Step>, TransportError>(step_after(step))
        } else {
            Err::<Option<Step>, TransportError>(failure_of(step))
        }),
{
    if !succeeded {
        return Err(
            match step {
                Step::Bind => TransportError::Bind,
                Step::SetReadTimeout | Step::SetWriteTimeout => TransportError::Timeout,
                Step::Send => TransportError::Send,
                Step::Receive => TransportError::Receive,
            },
        );
    }
    Ok(
        match step {
            Step::Bind => Some(Step::SetReadTimeout),
            Step::SetReadTimeout => Some(Step::SetWriteTimeout),
            Step::SetWriteTimeout => Some(Step::Send),
            Step::Send => Some(Step::Receive),
            Step::Receive => None,
        },
    )
}

/// A query whose steps all succeed takes each of the five steps once: it
/// opens the socket, sets the two timeouts, sends, and receives.
pub proof fn lemma_steps_in_order()
    ensures
        steps_from(Step::Bind) == seq![
            Step::Bind,
            Step::SetReadTimeout,
            Step::SetWriteTimeout,
            Step::Send,
            Step::Receive,
        ],
{
    reveal_with_fuel(steps_from, 5);
}

} // verus!
