//! The reconnecting socket client and helper supervision, as a pure state
//! machine: the unverified shell performs one action at a time (launch the
//! helper, read a line, connect, read exactly so many bytes, back off) and
//! feeds the outcome back in; the machine decides what happens next and
//! which decoded messages become intents.

use vstd::prelude::*;
use vstd::utf8::encode_utf8;

use crate::codec::{be_val, decode_message, frame_length, spec_decode_event};
use crate::events::{SocketEvent, SocketEventView};

verus! {

/// Where in the connection life cycle the client stands.
#[derive(Debug, Clone, Copy, PartialEq, Eq, Structural)]
pub enum ClientPhase {
    /// The helper process is being launched.
    LaunchingHelper,
    /// Waiting for the helper's readiness line on its standard output.
    AwaitingReady,
    /// Connecting to the helper's socket.
    Connecting,
    /// Waiting for the 4-byte frame length prefix.
    ReadingHeader,
    /// Waiting for the declared number of payload bytes.
    ReadingPayload { len: u32 },
    /// A failure happened: the helper is killed and the client sleeps
    /// before the next attempt.
    BackingOff,
}

/// The outcome of the last action, as the shell observed it.
#[derive(Debug, PartialEq, Eq)]
pub enum ClientEvent {
    /// The helper process was spawned and its output captured.
    HelperLaunched,
    /// The helper process could not be spawned.
    LaunchFailed,
    /// One line of the helper's standard output.
    Line(String),
    /// The helper's standard output ended (the process exited).
    StdoutClosed,
    /// The socket connection is up.
    Connected,
    /// The socket connection could not be made.
    ConnectFailed,
    /// An exact read completed with these bytes.
    Bytes(Vec<u8>),
    /// A read failed or came up short.
    ReadFailed,
    /// The backoff delay has elapsed.
    BackoffElapsed,
}

/// Mathematical model of a [`ClientEvent`].
pub ghost enum ClientEventView {
    HelperLaunched,
    LaunchFailed,
    Line(Seq<char>),
    StdoutClosed,
    Connected,
    ConnectFailed,
    Bytes(Seq<u8>),
    ReadFailed,
    BackoffElapsed,
}

impl DeepView for ClientEvent {
    type V = ClientEventView;

    open spec fn deep_view(&self) -> ClientEventView {
        match self {
            ClientEvent::HelperLaunched => ClientEventView::HelperLaunched,
            ClientEvent::LaunchFailed => ClientEventView::LaunchFailed,
            ClientEvent::Line(l) => ClientEventView::Line(l@),
            ClientEvent::StdoutClosed => ClientEventView::StdoutClosed,
            ClientEvent::Connected => ClientEventView::Connected,
            ClientEvent::ConnectFailed => ClientEventView::ConnectFailed,
            ClientEvent::Bytes(b) => ClientEventView::Bytes(b@),
            ClientEvent::ReadFailed => ClientEventView::ReadFailed,
            ClientEvent::BackoffElapsed => ClientEventView::BackoffElapsed,
        }
    }
}

/// What the shell must do next.
#[derive(Debug, PartialEq, Eq)]
pub enum ClientAction {
    /// Spawn the helper process (with any dynamic-library-path override
    /// stripped from its environment) and capture its standard output.
    LaunchHelper,
    /// Read one line of the helper's standard output.
    ReadLine,
    /// Connect to the helper's socket.
    Connect,
    /// Read exactly this many bytes from the socket.
    ReadExact(u32),
    /// Kill the helper, drop the connection, and sleep the backoff delay.
    KillAndSleep,
    /// Put one decoded message on the command bus.
    Emit(SocketEvent),
}

/// Mathematical model of a [`ClientAction`].
pub ghost enum ClientActionView {
    LaunchHelper,
    ReadLine,
    Connect,
    ReadExact(u32),
    KillAndSleep,
    Emit(SocketEventView),
}

impl DeepView for ClientAction {
    type V = ClientActionView;

    open spec fn deep_view(&self) -> ClientActionView {
        match self {
            ClientAction::LaunchHelper => ClientActionView::LaunchHelper,
            ClientAction::ReadLine => ClientActionView::ReadLine,
            ClientAction::Connect => ClientActionView::Connect,
            ClientAction::ReadExact(n) => ClientActionView::ReadExact(*n),
            ClientAction::KillAndSleep => ClientActionView::KillAndSleep,
            ClientAction::Emit(m) => ClientActionView::Emit(m.deep_view()),
        }
    }
}

/// `n` occurs in `h` starting at `i`.
pub open spec fn contains_at(h: Seq<u8>, n: Seq<u8>, i: int) -> bool {
    0 <= i && i + n.len() <= h.len() && h.subrange(i, i + n.len()) == n
}

/// `n` occurs somewhere in `h`.
pub open spec fn contains_sub(h: Seq<u8>, n: Seq<u8>) -> bool {
    exists|i: int| contains_at(h, n, i)
}

/// The helper's readiness handshake: the line that signals its socket is
/// bound.
pub open spec fn ready_line(l: Seq<char>) -> bool {
    contains_sub(encode_utf8(l), encode_utf8("Socket bound successfully"@))
}

/// Whether `needle` occurs as a contiguous run of `haystack`.
fn contains_subslice(haystack: &[u8], needle: &[u8]) -> (r: bool)
    ensures
        r == contains_sub(haystack@, needle@),
{
    let h = haystack.len();
    let n = needle.len();
    if n > h {
        proof {
            assert forall|t: int| !contains_at(haystack@, needle@, t) by {}
        }
        return false;
    }
    if n == 0 {
        proof {
            assert(haystack@.subrange(0, 0) =~= needle@);
            assert(contains_at(haystack@, needle@, 0));
        }
        return true;
    }
    let mut i: usize = 0;
    while i <= h - n
        invariant
            h == haystack@.len(),
            n == needle@.len(),
            0 < n <= h,
            0 <= i <= h - n + 1,
            forall|t: int| 0 <= t < i ==> !contains_at(haystack@, needle@, t),
        decreases h - n + 1 - i,
    {
        let mut j: usize = 0;
        let mut hit = true;
        while j < n
            invariant
                h == haystack@.len(),
                n == needle@.len(),
                n <= h,
                0 <= i <= h - n,
                0 <= j <= n,
                hit ==> forall|u: int| 0 <= u < j ==> haystack@[i + u] == needle@[u],
                !hit ==> !contains_at(haystack@, needle@, i as int),
            decreases n - j,
        {
            if haystack[i + j] != needle[j] {
                proof {
                    if contains_at(haystack@, needle@, i as int) {
                        assert(haystack@.subrange(i as int, i + n as int)[j as int]
                            == needle@[j as int]);
                    }
                }
                hit = false;
                j = n;
            } else {
                j += 1;
            }
        }
        if hit {
            proof {
                assert(haystack@.subrange(i as int, i + n as int) =~= needle@);
                assert(contains_at(haystack@, needle@, i as int));
            }
            return true;
        }
        i += 1;
    }
    proof {
        assert forall|t: int| !contains_at(haystack@, needle@, t) by {
            if t >= i {
                assert(t + needle@.len() > haystack@.len());
            }
        }
    }
    false
}

/// Whether a helper output line is the readiness handshake, as
/// [`ready_line`] says.
pub fn is_ready_line(line: &str) -> (r: bool)
    ensures
        r == ready_line(line@),
{
    contains_subslice(line.as_bytes(), "Socket bound successfully".as_bytes())
}

/// One more connection attempt, without overflowing the counter.
pub open spec fn bump(attempts: u64) -> u64 {
    if attempts == u64::MAX {
        attempts
    } else {
        (attempts + 1) as u64
    }
}

/// One step of the client: from the current phase and the outcome of the
/// last action to the next phase and the actions to perform, in order.
///
/// A failure anywhere — a launch that fails, an output that ends before
/// the readiness line, a connect or read that fails, a short frame, a
/// payload that does not decode, or an outcome that does not belong to
/// the phase — tears the connection down (`KillAndSleep`) and the cycle
/// restarts after the backoff. A decoded message is emitted and the next
/// header read begins.
pub open spec fn spec_client_step(phase: ClientPhase, attempts: u64, e: ClientEventView) -> (
    ClientPhase,
    u64,
    Seq<ClientActionView>,
) {
    match (phase, e) {
        (ClientPhase::LaunchingHelper, ClientEventView::HelperLaunched) => (
            ClientPhase::AwaitingReady,
            attempts,
            seq![ClientActionView::ReadLine],
        ),
        (ClientPhase::AwaitingReady, ClientEventView::Line(l)) => if ready_line(l) {
            (ClientPhase::Connecting, bump(attempts), seq![ClientActionView::Connect])
        } else {
            (ClientPhase::AwaitingReady, attempts, seq![ClientActionView::ReadLine])
        },
        (ClientPhase::Connecting, ClientEventView::Connected) => (
            ClientPhase::ReadingHeader,
            attempts,
            seq![ClientActionView::ReadExact(4)],
        ),
        (ClientPhase::ReadingHeader, ClientEventView::Bytes(b)) => if b.len() == 4 {
            (
                ClientPhase::ReadingPayload { len: be_val(b[0], b[1], b[2], b[3]) },
                attempts,
                seq![ClientActionView::ReadExact(be_val(b[0], b[1], b[2], b[3]))],
            )
        } else {
            (ClientPhase::BackingOff, attempts, seq![ClientActionView::KillAndSleep])
        },
        (ClientPhase::ReadingPayload { len }, ClientEventView::Bytes(b)) => if b.len()
            == len {
            match spec_decode_event(b) {
                Some(m) => (
                    ClientPhase::ReadingHeader,
                    attempts,
                    seq![ClientActionView::Emit(m), ClientActionView::ReadExact(4)],
                ),
                None => (ClientPhase::BackingOff, attempts, seq![ClientActionView::KillAndSleep]),
            }
        } else {
            (ClientPhase::BackingOff, attempts, seq![ClientActionView::KillAndSleep])
        },
        (ClientPhase::BackingOff, ClientEventView::BackoffElapsed) => (
            ClientPhase::LaunchingHelper,
            attempts,
            seq![ClientActionView::LaunchHelper],
        ),
        _ => (ClientPhase::BackingOff, attempts, seq![ClientActionView::KillAndSleep]),
    }
}

/// The socket client: its phase and how many connections it has
/// attempted.
#[derive(Debug)]
pub struct SocketClient {
    pub phase: ClientPhase,
    pub connect_attempts: u64,
}

impl SocketClient {
    /// A fresh client, about to launch the helper for the first time: the
    /// shell starts by performing `LaunchHelper` and feeding the outcome
    /// in.
    pub fn new() -> (r: Self)
        ensures
            r.phase == ClientPhase::LaunchingHelper,
            r.connect_attempts == 0,
    {
        SocketClient { phase: ClientPhase::LaunchingHelper, connect_attempts: 0 }
    }

    /// Feed one outcome in; returns the actions to perform next, in
    /// order, exactly as [`spec_client_step`] says.
    pub fn step(&mut self, event: ClientEvent) -> (r: Vec<ClientAction>)
        ensures
            ({
                let (p, a, acts) = spec_client_step(
                    old(self).phase,
                    old(self).connect_attempts,
                    event.deep_view(),
                );
                &&& final(self).phase == p
                &&& final(self).connect_attempts == a
                &&& r.deep_view() == acts
            }),
    {
        let mut acts: Vec<ClientAction> = Vec::new();
        match (self.phase, event) {
            (ClientPhase::LaunchingHelper, ClientEvent::HelperLaunched) => {
                self.phase = ClientPhase::AwaitingReady;
                acts.push(ClientAction::ReadLine);
                proof {
                    assert(acts.deep_view() =~= seq![ClientActionView::ReadLine]);
                }
            },
            (ClientPhase::AwaitingReady, ClientEvent::Line(l)) => {
                if is_ready_line(l.as_str()) {
                    self.phase = ClientPhase::Connecting;
                    if self.connect_attempts < u64::MAX {
                        self.connect_attempts = self.connect_attempts + 1;
                    }
                    acts.push(ClientAction::Connect);
                    proof {
                        assert(acts.deep_view() =~= seq![ClientActionView::Connect]);
                    }
                } else {
                    acts.push(ClientAction::ReadLine);
                    proof {
                        assert(acts.deep_view() =~= seq![ClientActionView::ReadLine]);
                    }
                }
            },
            (ClientPhase::Connecting, ClientEvent::Connected) => {
                self.phase = ClientPhase::ReadingHeader;
                acts.push(ClientAction::ReadExact(4));
                proof {
                    assert(acts.deep_view() =~= seq![ClientActionView::ReadExact(4)]);
                }
            },
            (ClientPhase::ReadingHeader, ClientEvent::Bytes(b)) => {
                match frame_length(&b) {
                    Some(len) => {
                        self.phase = ClientPhase::ReadingPayload { len };
                        acts.push(ClientAction::ReadExact(len));
                        proof {
                            assert(acts.deep_view() =~= seq![ClientActionView::ReadExact(len)]);
                        }
                    },
                    None => {
                        self.phase = ClientPhase::BackingOff;
                        acts.push(ClientAction::KillAndSleep);
                        proof {
                            assert(acts.deep_view() =~= seq![ClientActionView::KillAndSleep]);
                        }
                    },
                }
            },
            (ClientPhase::ReadingPayload { len }, ClientEvent::Bytes(b)) => {
                if b.len() == len as usize {
                    match decode_message(&b) {
                        Some(m) => {
                            self.phase = ClientPhase::ReadingHeader;
                            let ghost mv = m.deep_view();
                            acts.push(ClientAction::Emit(m));
                            acts.push(ClientAction::ReadExact(4));
                            proof {
                                assert(acts.deep_view() =~= seq![
                                    ClientActionView::Emit(mv),
                                    ClientActionView::ReadExact(4),
                                ]);
                            }
                        },
                        None => {
                            self.phase = ClientPhase::BackingOff;
                            acts.push(ClientAction::KillAndSleep);
                            proof {
                                assert(acts.deep_view() =~= seq![ClientActionView::KillAndSleep]);
                            }
                        },
                    }
                } else {
                    self.phase = ClientPhase::BackingOff;
                    acts.push(ClientAction::KillAndSleep);
                    proof {
                        assert(acts.deep_view() =~= seq![ClientActionView::KillAndSleep]);
                    }
                }
            },
            (ClientPhase::BackingOff, ClientEvent::BackoffElapsed) => {
                self.phase = ClientPhase::LaunchingHelper;
                acts.push(ClientAction::LaunchHelper);
                proof {
                    assert(acts.deep_view() =~= seq![ClientActionView::LaunchHelper]);
                }
            },
            (_, _) => {
                self.phase = ClientPhase::BackingOff;
                acts.push(ClientAction::KillAndSleep);
                proof {
                    assert(acts.deep_view() =~= seq![ClientActionView::KillAndSleep]);
                }
            },
        }
        acts
    }
}

/// A whole run: feed a sequence of outcomes through the client, starting
/// from the given phase, collecting every action in order.
pub open spec fn spec_client_run(
    phase: ClientPhase,
    attempts: u64,
    events: Seq<ClientEventView>,
) -> (ClientPhase, u64, Seq<ClientActionView>)
    decreases events.len(),
{
    if events.len() == 0 {
        (phase, attempts, Seq::empty())
    } else {
        let (p1, a1, acts1) = spec_client_step(phase, attempts, events[0]);
        let (p2, a2, acts2) = spec_client_run(p1, a1, events.drop_first());
        (p2, a2, acts1 + acts2)
    }
}

/// How many connection attempts a run of actions makes.
pub open spec fn count_connects(acts: Seq<ClientActionView>) -> nat
    decreases acts.len(),
{
    if acts.len() == 0 {
        0
    } else {
        (if acts[0] is Connect {
            1nat
        } else {
            0nat
        }) + count_connects(acts.drop_first())
    }
}

/// How many intents a run of actions emits.
pub open spec fn count_emits(acts: Seq<ClientActionView>) -> nat
    decreases acts.len(),
{
    if acts.len() == 0 {
        0
    } else {
        (if acts[0] is Emit {
            1nat
        } else {
            0nat
        }) + count_emits(acts.drop_first())
    }
}

/// How many backoff sleeps a run of actions takes.
pub open spec fn count_sleeps(acts: Seq<ClientActionView>) -> nat
    decreases acts.len(),
{
    if acts.len() == 0 {
        0
    } else {
        (if acts[0] is KillAndSleep {
            1nat
        } else {
            0nat
        }) + count_sleeps(acts.drop_first())
    }
}

/// The three counts distribute over concatenation.
pub proof fn lemma_count_concat(x: Seq<ClientActionView>, y: Seq<ClientActionView>)
    ensures
        count_connects(x + y) == count_connects(x) + count_connects(y),
        count_emits(x + y) == count_emits(x) + count_emits(y),
        count_sleeps(x + y) == count_sleeps(x) + count_sleeps(y),
    decreases x.len(),
{
    if x.len() == 0 {
        assert(x + y =~= y);
    } else {
        assert((x + y).drop_first() =~= x.drop_first() + y);
        assert((x + y)[0] == x[0]);
        lemma_count_concat(x.drop_first(), y);
    }
}

/// The counts of a single action.
proof fn lemma_count_singleton(x: ClientActionView)
    ensures
        count_connects(seq![x]) == if x is Connect {
            1nat
        } else {
            0nat
        },
        count_emits(seq![x]) == if x is Emit {
            1nat
        } else {
            0nat
        },
        count_sleeps(seq![x]) == if x is KillAndSleep {
            1nat
        } else {
            0nat
        },
{
    assert(seq![x].drop_first() =~= Seq::<ClientActionView>::empty());
    assert(count_connects(Seq::<ClientActionView>::empty()) == 0);
    assert(count_emits(Seq::<ClientActionView>::empty()) == 0);
    assert(count_sleeps(Seq::<ClientActionView>::empty()) == 0);
}

/// A run over a concatenation is the run over the first part, continued
/// over the second, with the actions concatenated.
pub proof fn lemma_run_append(
    phase: ClientPhase,
    attempts: u64,
    e1: Seq<ClientEventView>,
    e2: Seq<ClientEventView>,
)
    ensures
        ({
            let (p1, a1, acts1) = spec_client_run(phase, attempts, e1);
            let (p2, a2, acts2) = spec_client_run(p1, a1, e2);
            spec_client_run(phase, attempts, e1 + e2) == (p2, a2, acts1 + acts2)
        }),
    decreases e1.len(),
{
    if e1.len() == 0 {
        assert(e1 + e2 =~= e2);
        let (p2, a2, acts2) = spec_client_run(phase, attempts, e2);
        assert(Seq::<ClientActionView>::empty() + acts2 =~= acts2);
    } else {
        assert((e1 + e2)[0] == e1[0]);
        assert((e1 + e2).drop_first() =~= e1.drop_first() + e2);
        let (q1, b1, s1) = spec_client_step(phase, attempts, e1[0]);
        lemma_run_append(q1, b1, e1.drop_first(), e2);
        let (p1, a1, acts1r) = spec_client_run(q1, b1, e1.drop_first());
        let (p2, a2, acts2) = spec_client_run(p1, a1, e2);
        assert(s1 + (acts1r + acts2) =~= (s1 + acts1r) + acts2);
    }
}

/// One failed connection attempt, as the shell reports it: the connect
/// fails, the backoff elapses, the helper is relaunched, and its
/// readiness line is read again.
pub open spec fn fail_cycle(l: Seq<char>) -> Seq<ClientEventView> {
    seq![
        ClientEventView::ConnectFailed,
        ClientEventView::BackoffElapsed,
        ClientEventView::HelperLaunched,
        ClientEventView::Line(l),
    ]
}

/// `n` failed connection attempts in a row.
pub open spec fn repeat_fail_cycle(l: Seq<char>, n: nat) -> Seq<ClientEventView>
    decreases n,
{
    if n == 0 {
        Seq::empty()
    } else {
        fail_cycle(l) + repeat_fail_cycle(l, (n - 1) as nat)
    }
}

/// One failure cycle, taken from the connecting phase: a backoff sleep,
/// a relaunch, a readiness read, and exactly one fresh connection
/// attempt.
proof fn lemma_run_cycle(attempts: u64, l: Seq<char>)
    requires
        ready_line(l),
        attempts < u64::MAX,
    ensures
        spec_client_run(ClientPhase::Connecting, attempts, fail_cycle(l)) == (
            ClientPhase::Connecting,
            (attempts + 1) as u64,
            seq![
                ClientActionView::KillAndSleep,
                ClientActionView::LaunchHelper,
                ClientActionView::ReadLine,
                ClientActionView::Connect,
            ],
        ),
{
    reveal_with_fuel(spec_client_run, 6);
    let e = fail_cycle(l);
    let e1 = e.drop_first();
    let e2 = e1.drop_first();
    let e3 = e2.drop_first();
    let e4 = e3.drop_first();
    assert(e1 =~= seq![
        ClientEventView::BackoffElapsed,
        ClientEventView::HelperLaunched,
        ClientEventView::Line(l),
    ]);
    assert(e2 =~= seq![ClientEventView::HelperLaunched, ClientEventView::Line(l)]);
    assert(e3 =~= seq![ClientEventView::Line(l)]);
    assert(e4 =~= Seq::<ClientEventView>::empty());
    assert(spec_client_run(ClientPhase::Connecting, attempts, e).2 =~= seq![
        ClientActionView::KillAndSleep,
        ClientActionView::LaunchHelper,
        ClientActionView::ReadLine,
        ClientActionView::Connect,
    ]);
}

/// The counts of one failure cycle's actions.
proof fn lemma_counts_cycle_acts()
    ensures
        count_connects(
            seq![
                ClientActionView::KillAndSleep,
                ClientActionView::LaunchHelper,
                ClientActionView::ReadLine,
                ClientActionView::Connect,
            ],
        ) == 1,
        count_emits(
            seq![
                ClientActionView::KillAndSleep,
                ClientActionView::LaunchHelper,
                ClientActionView::ReadLine,
                ClientActionView::Connect,
            ],
        ) == 0,
        count_sleeps(
            seq![
                ClientActionView::KillAndSleep,
                ClientActionView::LaunchHelper,
                ClientActionView::ReadLine,
                ClientActionView::Connect,
            ],
        ) == 1,
{
    let s = seq![
        ClientActionView::KillAndSleep,
        ClientActionView::LaunchHelper,
        ClientActionView::ReadLine,
        ClientActionView::Connect,
    ];
    assert(s =~= seq![ClientActionView::KillAndSleep] + (seq![ClientActionView::LaunchHelper]
        + (seq![ClientActionView::ReadLine] + seq![ClientActionView::Connect])));
    lemma_count_singleton(ClientActionView::KillAndSleep);
    lemma_count_singleton(ClientActionView::LaunchHelper);
    lemma_count_singleton(ClientActionView::ReadLine);
    lemma_count_singleton(ClientActionView::Connect);
    lemma_count_concat(
        seq![ClientActionView::ReadLine],
        seq![ClientActionView::Connect],
    );
    lemma_count_concat(
        seq![ClientActionView::LaunchHelper],
        seq![ClientActionView::ReadLine] + seq![ClientActionView::Connect],
    );
    lemma_count_concat(
        seq![ClientActionView::KillAndSleep],
        seq![ClientActionView::LaunchHelper] + (seq![ClientActionView::ReadLine]
            + seq![ClientActionView::Connect]),
    );
}

/// `n` failure cycles followed by a success, taken from the connecting
/// phase: `n` more connection attempts, each behind its own backoff
/// sleep, no intent emitted, and the client ends up reading the first
/// frame header.
proof fn lemma_reconnect_cycles(attempts: u64, l: Seq<char>, n: nat)
    requires
        ready_line(l),
        attempts + n <= u64::MAX,
    ensures
        ({
            let (p, a, acts) = spec_client_run(
                ClientPhase::Connecting,
                attempts,
                repeat_fail_cycle(l, n) + seq![ClientEventView::Connected],
            );
            &&& p == ClientPhase::ReadingHeader
            &&& a == attempts + n
            &&& count_connects(acts) == n
            &&& count_sleeps(acts) == n
            &&& count_emits(acts) == 0
        }),
    decreases n,
{
    if n == 0 {
        reveal_with_fuel(spec_client_run, 3);
        let e = repeat_fail_cycle(l, 0) + seq![ClientEventView::Connected];
        assert(e =~= seq![ClientEventView::Connected]);
        assert(e.drop_first() =~= Seq::<ClientEventView>::empty());
        let (p, a, acts) = spec_client_run(ClientPhase::Connecting, attempts, e);
        assert(acts =~= seq![ClientActionView::ReadExact(4)]);
        lemma_count_singleton(ClientActionView::ReadExact(4));
    } else {
        let rest = repeat_fail_cycle(l, (n - 1) as nat) + seq![ClientEventView::Connected];
        assert(repeat_fail_cycle(l, n) + seq![ClientEventView::Connected] =~= fail_cycle(l)
            + rest);
        lemma_run_append(ClientPhase::Connecting, attempts, fail_cycle(l), rest);
        lemma_run_cycle(attempts, l);
        lemma_reconnect_cycles((attempts + 1) as u64, l, (n - 1) as nat);
        let cycle_acts = seq![
            ClientActionView::KillAndSleep,
            ClientActionView::LaunchHelper,
            ClientActionView::ReadLine,
            ClientActionView::Connect,
        ];
        let (_p2, _a2, acts2) = spec_client_run(ClientPhase::Connecting, (attempts + 1) as u64, rest);
        lemma_count_concat(cycle_acts, acts2);
        lemma_counts_cycle_acts();
    }
}

/// Reconnect loop: starting from the first helper launch, if the connect
/// step fails `n` times and then succeeds, the client attempts exactly
/// `n + 1` connections; every failed attempt is followed by a
/// kill-and-backoff sleep before the next attempt, and no intent is
/// emitted anywhere along the way.
pub proof fn lemma_reconnect_loop(attempts: u64, l: Seq<char>, n: nat)
    requires
        ready_line(l),
        attempts + n + 1 <= u64::MAX,
    ensures
        ({
            let events = seq![ClientEventView::HelperLaunched, ClientEventView::Line(l)]
                + repeat_fail_cycle(l, n) + seq![ClientEventView::Connected];
            let (p, a, acts) = spec_client_run(ClientPhase::LaunchingHelper, attempts, events);
            &&& p == ClientPhase::ReadingHeader
            &&& a == attempts + n + 1
            &&& count_connects(acts) == n + 1
            &&& count_sleeps(acts) == n
            &&& count_emits(acts) == 0
        }),
{
    reveal_with_fuel(spec_client_run, 4);
    let prefix = seq![ClientEventView::HelperLaunched, ClientEventView::Line(l)];
    let rest = repeat_fail_cycle(l, n) + seq![ClientEventView::Connected];
    assert(prefix + repeat_fail_cycle(l, n) + seq![ClientEventView::Connected] =~= prefix + rest);
    lemma_run_append(ClientPhase::LaunchingHelper, attempts, prefix, rest);
    assert(prefix.drop_first() =~= seq![ClientEventView::Line(l)]);
    assert(prefix.drop_first().drop_first() =~= Seq::<ClientEventView>::empty());
    let (p1, a1, acts1) = spec_client_run(ClientPhase::LaunchingHelper, attempts, prefix);
    assert(p1 == ClientPhase::Connecting);
    assert(a1 == attempts + 1);
    assert(acts1 =~= seq![ClientActionView::ReadLine] + seq![ClientActionView::Connect]);
    lemma_reconnect_cycles(a1, l, n);
    let (_p2, _a2, acts2) = spec_client_run(p1, a1, rest);
    lemma_count_concat(seq![ClientActionView::ReadLine], seq![ClientActionView::Connect]);
    lemma_count_singleton(ClientActionView::ReadLine);
    lemma_count_singleton(ClientActionView::Connect);
    lemma_count_concat(acts1, acts2);
}

/// Frame integrity: a payload read that comes back with a different
/// number of bytes than the header declared, or a payload that does not
/// decode, tears the connection down for a reconnect and emits no
/// intent.
pub proof fn lemma_frame_integrity(len: u32, attempts: u64, b: Seq<u8>)
    requires
        b.len() != len || spec_decode_event(b) is None,
    ensures
        spec_client_step(
            ClientPhase::ReadingPayload { len },
            attempts,
            ClientEventView::Bytes(b),
        ) == (ClientPhase::BackingOff, attempts, seq![ClientActionView::KillAndSleep]),
{
}

/// An intent is emitted only by a payload read of exactly the declared
/// length whose bytes decode; every other step emits nothing.
pub proof fn lemma_emit_only_on_decode(phase: ClientPhase, attempts: u64, e: ClientEventView)
    ensures
        ({
            let (_p, _a, acts) = spec_client_step(phase, attempts, e);
            count_emits(acts) != 0 ==> {
                &&& phase matches ClientPhase::ReadingPayload { len }
                &&& e matches ClientEventView::Bytes(b)
                &&& phase matches ClientPhase::ReadingPayload { len } && e matches
                    ClientEventView::Bytes(b) ==> b.len() == len && spec_decode_event(b) is Some
            }
        }),
{
    lemma_count_singleton(ClientActionView::ReadLine);
    lemma_count_singleton(ClientActionView::Connect);
    lemma_count_singleton(ClientActionView::ReadExact(4));
    lemma_count_singleton(ClientActionView::KillAndSleep);
    lemma_count_singleton(ClientActionView::LaunchHelper);
    if let ClientPhase::ReadingPayload { len } = phase {
        if let ClientEventView::Bytes(b) = e {
            lemma_count_singleton(ClientActionView::ReadExact(be_val(b[0], b[1], b[2], b[3])));
            lemma_count_singleton(ClientActionView::ReadExact(len));
        }
    }
    if let ClientEventView::Bytes(b) = e {
        if b.len() == 4 {
            lemma_count_singleton(ClientActionView::ReadExact(be_val(b[0], b[1], b[2], b[3])));
        }
    }
}

} // verus!
