//! The decision core of the connection layer: the server configuration,
//! the commands a fresh connection seeds its session with, and the rule
//! that maps each connection event to the action the handler takes.
//!
//! The surrounding loop — accepting sockets, awaiting the timer and the
//! inbound stream — is plain I/O and lives outside the library; it feeds
//! events in and carries the chosen actions out.

use vstd::prelude::*;

use crate::gameoflife::Message;

verus! {

/// The configuration the server consumes: listen address, listen port,
/// worker pool size and stack, and the tick period.
#[derive(Copy, Clone, Debug, PartialEq)]
pub struct Config {
    pub ip: [u8; 4],
    pub port: u16,
    pub sim_threads: usize,
    pub sim_thread_stack_size: usize,
    pub tick_millis: u64,
}

impl Default for Config {
    /// The stock defaults: loopback, port 9001, 16 workers with 2 MiB
    /// stacks, and a tick period of 33 ms (roughly 30 Hz).
    fn default() -> (r: Config)
        ensures
            r.ip@ =~= seq![127u8, 0u8, 0u8, 1u8],
            r.port == 9001,
            r.sim_threads == 16,
            r.sim_thread_stack_size == 2097152,
            r.tick_millis == 33,
    {
        Config {
            ip: [127, 0, 0, 1],
            port: 9001,
            sim_threads: 16,
            sim_thread_stack_size: 2097152,
            tick_millis: 33,
        }
    }
}

/// One wake-up of a connection handler: an inbound frame arrived (a close
/// frame or any other), the inbound stream ended or failed, or the periodic
/// timer fired.
#[derive(Copy, Clone, Debug, PartialEq, Eq, Structural)]
pub enum ConnEvent {
    Inbound { close: bool },
    InboundGone,
    TimerFired,
}

/// What the handler does next: push one freshly encoded snapshot to the
/// client and keep waiting, or send `End` to the session and terminate.
#[derive(Copy, Clone, Debug, PartialEq, Eq, Structural)]
pub enum ConnStep {
    SendSnapshot,
    EndSession,
}

/// The handler's rule, in arrival order, one event at a time: any non-close
/// inbound frame and every timer expiry push a snapshot; a close frame and
/// a vanished inbound stream end the session. No other action exists, so a
/// session only ever ends through its `End` command.
pub fn on_conn_event(ev: &ConnEvent) -> (r: ConnStep)
    ensures
        r == (match ev {
            ConnEvent::Inbound { close } => if *close {
                ConnStep::EndSession
            } else {
                ConnStep::SendSnapshot
            },
            ConnEvent::InboundGone => ConnStep::EndSession,
            ConnEvent::TimerFired => ConnStep::SendSnapshot,
        }),
{
    match ev {
        ConnEvent::Inbound { close } => {
            if *close {
                ConnStep::EndSession
            } else {
                ConnStep::SendSnapshot
            }
        },
        ConnEvent::InboundGone => ConnStep::EndSession,
        ConnEvent::TimerFired => ConnStep::SendSnapshot,
    }
}

/// The two commands a handler seeds a fresh session with, in order:
/// `Random` then `Start`, so a newly connected client immediately observes
/// a running simulation.
pub fn initial_commands() -> (r: Vec<Message>)
    ensures
        r@ =~= seq![Message::Random, Message::Start],
{
    let mut v: Vec<Message> = Vec::new();
    v.push(Message::Random);
    v.push(Message::Start);
    v
}

} // verus!

