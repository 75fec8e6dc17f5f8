//! The session actor: one simulation and its lifecycle state behind an
//! exclusive-access lock, fed through an unbounded FIFO command queue.
//!
//! The queue is deliberately unbounded: a session's own worker is the only
//! consumer, so queuing here cannot create unbounded fan-in.

use vstd::prelude::*;
use vstd::rwlock::RwLock;
use vstd::rwlock::RwLockPredicate;

use crate::actor;
use crate::actor::Id;
use crate::gameoflife::Error;
use crate::gameoflife::Message;
use crate::gameoflife::Simulation;

verus! {

#[verifier::external_type_specification]
#[verifier::external_body]
#[verifier::reject_recursive_types(T)]
pub struct ExSender<T>(crossbeam::channel::Sender<T>);

#[verifier::external_type_specification]
#[verifier::external_body]
#[verifier::reject_recursive_types(T)]
pub struct ExReceiver<T>(crossbeam::channel::Receiver<T>);

#[verifier::external_type_specification]
#[verifier::external_body]
#[verifier::reject_recursive_types(T)]
pub struct ExSendError<T>(crossbeam::channel::SendError<T>);

#[verifier::external_type_specification]
#[verifier::external_body]
pub struct ExRecvError(crossbeam::channel::RecvError);

/// Relies on crossbeam::channel::unbounded: a FIFO queue of unbounded
/// capacity whose two halves are connected to each other.
#[verifier::external_body]
fn queue_new() -> (crossbeam::channel::Sender<Message>, crossbeam::channel::Receiver<Message>) {
    crossbeam::channel::unbounded()
}

/// Relies on crossbeam::channel::Sender::send: appends the message to the
/// back of the queue without blocking; it fails exactly when every receiver
/// half has been dropped.
#[verifier::external_body]
fn queue_send(tx: &crossbeam::channel::Sender<Message>, m: Message) -> (r: Result<
    (),
    crossbeam::channel::SendError<Message>,
>) {
    tx.send(m)
}

/// Relies on crossbeam::channel::Receiver::recv: blocks until a message is
/// available and takes it from the front of the queue; it fails exactly
/// when the queue is empty and every sender half has been dropped.
#[verifier::external_body]
fn queue_recv(rx: &crossbeam::channel::Receiver<Message>) -> (r: Result<
    Message,
    crossbeam::channel::RecvError,
>) {
    rx.recv()
}

/// The lock invariant of a session: whatever simulation is stored is well
/// formed.
pub struct SimPred;

impl RwLockPredicate<Simulation> for SimPred {
    open spec fn inv(self, s: Simulation) -> bool {
        s.wf()
    }
}

/// One Game of Life session: a simulation behind an exclusive-access lock,
/// an unbounded command queue, and an opaque identifier fixed at creation.
pub struct GameOfLife {
    id: Id,
    game: RwLock<Simulation, SimPred>,
    tx: crossbeam::channel::Sender<Message>,
    rx: crossbeam::channel::Receiver<Message>,
}

impl GameOfLife {
    /// Every session ever built satisfies this: its lock admits exactly the
    /// well-formed simulations, and its identifier is a real one.
    #[verifier::type_invariant]
    spec fn type_inv(self) -> bool {
        self.game.pred() == SimPred && self.id.spec_value() != 0
    }

    pub closed spec fn id_spec(self) -> Id {
        self.id
    }

    /// A fresh session: a new identifier, a fresh `Starting` simulation,
    /// and an empty command queue.
    pub fn new() -> (r: Self) {
        let (tx, rx) = queue_new();
        GameOfLife {
            id: Id::random(),
            game: RwLock::new(Simulation::new(), Ghost(SimPred)),
            tx,
            rx,
        }
    }

    /// Enqueues one command for this session's worker; it never waits on
    /// command processing. Fails with `SessionClosed` exactly when the
    /// session's queue is gone.
    pub fn send(&self, message: Message) -> (r: Result<(), Error>)
        ensures
            r matches Err(e) ==> e == Error::SessionClosed,
    {
        match queue_send(&self.tx, message) {
            Ok(()) => Ok(()),
            Err(_) => Err(Error::SessionClosed),
        }
    }

    /// The session's own execution step: dequeues exactly one pending
    /// command, blocking until one is available, and applies it to the
    /// simulation under the exclusive lock, so that `update_outcome` relates
    /// the simulation before and after to the result. Fails with `Unknown`
    /// when the queue has been closed, with `GameOver` once the session has
    /// ended (the signal to stop scheduling ticks), and with
    /// `IndexOutOfRange` on a bad toggle index; no other error can come
    /// back.
    pub fn on_tick(&self) -> (r: Result<(), Error>)
        ensures
            r matches Err(e) ==> (e == Error::Unknown || e == Error::GameOver || e
                == Error::IndexOutOfRange),
    {
        proof {
            use_type_invariant(self);
        }
        match queue_recv(&self.rx) {
            Err(_) => Err(Error::Unknown),
            Ok(msg) => {
                let (mut sim, handle) = self.game.acquire_write();
                let res = sim.update(msg);
                handle.release_write(sim);
                res
            },
        }
    }

    /// An immutable snapshot of the current simulation, taken as a copy
    /// under the same exclusive lock that guards mutation: it is always
    /// internally consistent, never a torn read.
    pub fn state(&self) -> (r: Simulation)
        ensures
            r.wf(),
    {
        proof {
            use_type_invariant(self);
        }
        let handle = self.game.acquire_read();
        let snapshot = handle.borrow().clone();
        handle.release_read();
        snapshot
    }

    /// The session's identifier: fixed at creation, never zero.
    pub fn id(&self) -> (r: &Id)
        ensures
            r == self.id_spec(),
            r.spec_value() != 0,
    {
        proof {
            use_type_invariant(self);
        }
        &self.id
    }

    pub fn name(&self) -> &'static str {
        "GameOfLife"
    }
}

impl actor::Actor for GameOfLife {
    type Message = Message;

    type State = Simulation;

    type Failure = Error;

    fn name(&self) -> &'static str {
        self.name()
    }

    fn id(&self) -> &Id {
        self.id()
    }

    fn send(&self, message: Message) -> Result<(), Error> {
        self.send(message)
    }

    fn on_tick(&self) -> Result<(), Error> {
        self.on_tick()
    }

    fn state(&self) -> Simulation {
        self.state()
    }
}

impl actor::Error for Error {
    fn recoverable(&self) -> bool {
        self.may_recover()
    }

    fn retryable(&self) -> bool {
        self.may_retry()
    }
}

} // verus!
