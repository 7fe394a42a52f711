//! The client: the server that it asks, and how long it waits.

use vstd::prelude::*;

verus! {

/// The nanoseconds in a second.
pub const NANOS_PER_SEC: u32 = 1_000_000_000;

/// The seconds that a client waits where nothing else is asked for.
pub const DEFAULT_TIMEOUT_SECS: u64 = 5;

/// How long to wait: whole seconds, and the nanoseconds beyond them, which
/// make less than a second.
#[derive(Debug, Clone, Copy, PartialEq, Eq)]
pub struct Timeout {
    secs: u64,
    nanos: u32,
}

/// A timeout as two numbers.
pub struct TimeoutView {
    pub secs: nat,
    pub nanos: nat,
}

impl View for Timeout {
    type V = TimeoutView;

    closed spec fn view(&self) -> TimeoutView {
        TimeoutView { secs: self.secs as nat, nanos: self.nanos as nat }
    }
}

impl Timeout {
    #[verifier::type_invariant]
    spec fn within_second(&self) -> bool {
        self.nanos < NANOS_PER_SEC
    }

    /// The timeout of `secs` seconds and `nanos` nanoseconds, where `nanos`
    /// makes less than a second.
    pub fn new(secs: u64, nanos: u32) -> (timeout: Option<Timeout>)
        ensures
            nanos < NANOS_PER_SEC <==> timeout is Some,
            timeout matches Some(t) ==> t@ == (TimeoutView {
                secs: secs as nat,
                nanos: nanos as nat,
            }),
    {
        if nanos < NANOS_PER_SEC {
            Some(Timeout { secs, nanos })
        } else {
            None
        }
    }

    /// The timeout of `secs` seconds.
    pub fn from_secs(secs: u64) -> (timeout: Timeout)
        ensures
            timeout@ == (TimeoutView { secs: secs as nat, nanos: 0 }),
    {
        Timeout { secs, nanos: 0 }
    }

    /// The whole seconds.
    pub fn as_secs(&self) -> (secs: u64)
        ensures
            secs == self@.secs,
    {
        self.secs
    }

    /// The nanoseconds beyond the whole seconds.
    pub fn subsec_nanos(&self) -> (nanos: u32)
        ensures
            nanos == self@.nanos,
            nanos < NANOS_PER_SEC,
    {
        proof {
            use_type_invariant(self);
        }
        self.nanos
    }
}

/// How long a client waits for the reply and for the request to leave.
#[derive(Debug, Clone, Copy, PartialEq, Eq)]
pub struct Q3ClientOptions {
    pub read_timeout: Timeout,
    pub write_timeout: Timeout,
}

/// A client for one server. It keeps nothing between two queries.
#[derive(Debug, Clone)]
pub struct Q3Client {
    hostname: String,
    options: Q3ClientOptions,
}

/// A client as the text of its server's address and its two timeouts.
pub struct ClientView {
    pub hostname: Seq<char>,
    pub read_timeout: TimeoutView,
    pub write_timeout: TimeoutView,
}

impl View for Q3Client {
    type V = ClientView;

    closed spec fn view(&self) -> ClientView {
        ClientView {
            hostname: self.hostname@,
            read_timeout: self.options.read_timeout@,
            write_timeout: self.options.write_timeout@,
        }
    }
}

impl Q3Client {
    /// A client for the server at `hostname`, an address with its port, that
    /// waits five seconds for the reply and as long for the request to leave.
    pub fn new(hostname: String) -> (client: Q3Client)
        ensures
            client@ == (ClientView {
                hostname: hostname@,
                read_timeout: TimeoutView { secs: DEFAULT_TIMEOUT_SECS as nat, nanos: 0 },
                write_timeout: TimeoutView { secs: DEFAULT_TIMEOUT_SECS as nat, nanos: 0 },
            }),
    {
        Q3Client::new_with_options(
            hostname,
            Q3ClientOptions {
                read_timeout: Timeout::from_secs(DEFAULT_TIMEOUT_SECS),
                write_timeout: Timeout::from_secs(DEFAULT_TIMEOUT_SECS),
            },
        )
    }

    /// A client for the server at `hostname` that waits as `options` says.
    pub fn new_with_options(hostname: String, options: Q3ClientOptions) -> (client: Q3Client)
        ensures
            client@ == (ClientView {
                hostname: hostname@,
                read_timeout: options.read_timeout@,
                write_timeout: options.write_timeout@,
            }),
    {
        Q3Client { hostname, options }
    }

    /// The address of the server.
    pub fn hostname(&self) -> (hostname: &str)
        ensures
            hostname@ == self@.hostname,
    {
        self.hostname.as_str()
    }

    /// The timeouts.
    pub fn options(&self) -> (options: Q3ClientOptions)
        ensures
            options.read_timeout@ == self@.read_timeout,
            options.write_timeout@ == self@.write_timeout,
    {
        self.options
    }
}

} // verus!
