//! The environment actor and its manager, as state machines.
//!
//! An actor owns one scripting engine and builds one page at a time, in the
//! order in which the requests arrived. The manager replaces the actor as a
//! whole on a restart and never moves a request from one actor to another.
//! The functions here decide; the program around them runs the threads and
//! the channels and reports what happened.

use vstd::prelude::*;

use crate::path::joined;
use crate::path::trim_slashes;
use crate::path::trimmed;
use crate::src_fs::SrcFile;
use crate::src_fs::SrcFs;
use crate::src_fs::SrcKind;
use crate::src_fs::resolution;

verus! {

/// What the manager is told to do.
#[derive(Clone, Copy, Debug, PartialEq, Eq, Structural)]
pub enum Command {
    Stop,
    Restart,
}

/// Where an actor is in its life.
#[derive(Clone, Copy, Debug, PartialEq, Eq, Structural)]
pub enum ActorState {
    /// The engine is being made and the bootstrap modules are being loaded.
    Starting,
    /// The actor waits for a request.
    Ready,
    /// The actor builds a page.
    Processing,
    /// The actor was told to stop and has not yet come to the point where it
    /// looks at its messages.
    Draining,
    /// The actor is gone.
    Stopped,
}

/// The actor cannot be reached: its channel is closed or it has stopped.
#[derive(Clone, Copy, Debug, PartialEq, Eq, Structural)]
pub struct ChannelError;

/// Why a request was not queued.
#[derive(Clone, Copy, Debug, PartialEq, Eq, Structural)]
pub enum SendError {
    /// The actor cannot be reached.
    Closed,
    /// The queue is full: the sender waits until the actor takes a request
    /// out.
    Full,
}

/// What an actor does at the point where it looks at its messages.
#[derive(Debug, PartialEq, Eq)]
pub enum ActorAction {
    /// Nothing is queued: wait.
    Wait,
    /// Build the page of this request and answer it.
    Build(u64),
    /// Leave. The requests that were still queued fail with a
    /// `ChannelError`, in this order.
    Exit(Vec<u64>),
}

/// An actor, as a mathematical value.
pub struct ActorView {
    pub state: ActorState,
    /// The requests that are queued, the oldest first.
    pub mailbox: Seq<u64>,
    /// The request whose page is being built.
    pub job: Option<u64>,
    /// Senders can still reach the queue.
    pub open: bool,
    /// The number of requests that the queue holds at most.
    pub capacity: nat,
}

/// The requests that were queued and are not yet answered, in the order in
/// which they are answered.
pub open spec fn owed(v: ActorView) -> Seq<u64> {
    match v.job {
        Some(j) => seq![j] + v.mailbox,
        None => v.mailbox,
    }
}

/// What holds of an actor at any time: the queue keeps to its capacity, a
/// page is being built exactly while the state says so, and an actor that has
/// stopped owes nothing and cannot be reached.
pub open spec fn actor_wf(v: ActorView) -> bool {
    &&& v.capacity > 0
    &&& v.mailbox.len() <= v.capacity
    &&& v.state == ActorState::Processing ==> v.job is Some
    &&& v.job is Some ==> v.state == ActorState::Processing || v.state == ActorState::Draining
    &&& v.state == ActorState::Stopped ==> v.mailbox.len() == 0 && !v.open
}

/// One environment actor.
#[derive(Debug)]
pub struct Actor {
    state: ActorState,
    mailbox: Vec<u64>,
    job: Option<u64>,
    open: bool,
    capacity: usize,
}

impl View for Actor {
    type V = ActorView;

    closed spec fn view(&self) -> ActorView {
        ActorView {
            state: self.state,
            mailbox: self.mailbox@,
            job: self.job,
            open: self.open,
            capacity: self.capacity as nat,
        }
    }
}

impl Actor {
    /// See `actor_wf`.
    pub open spec fn wf(&self) -> bool {
        actor_wf(self@)
    }

    /// An actor that is starting, with an empty queue for `capacity`
    /// requests.
    pub fn new(capacity: usize) -> (r: Actor)
        requires
            capacity > 0,
        ensures
            r.wf(),
            r@.state == ActorState::Starting,
            r@.mailbox == Seq::<u64>::empty(),
            r@.job is None,
            r@.open,
            r@.capacity == capacity,
    {
        Actor { state: ActorState::Starting, mailbox: Vec::new(), job: None, open: true, capacity }
    }

    /// The state of the actor.
    pub fn state(&self) -> (r: ActorState)
        ensures
            r == self@.state,
    {
        self.state
    }

    /// The number of queued requests.
    pub fn queued(&self) -> (r: usize)
        ensures
            r == self@.mailbox.len(),
    {
        self.mailbox.len()
    }

    /// The request whose page is being built.
    pub fn job(&self) -> (r: Option<u64>)
        ensures
            r == self@.job,
    {
        self.job
    }

    /// The engine was made and the bootstrap modules were loaded (`ok`), or
    /// that failed.
    ///
    /// A failure stops this actor: the requests that were queued fail, and
    /// they are handed back. An actor that is not starting stays as it is.
    pub fn started(&mut self, ok: bool) -> (failed: Vec<u64>)
        requires
            old(self).wf(),
        ensures
            final(self).wf(),
            old(self)@.state != ActorState::Starting ==> final(self)@ == old(self)@ && failed@.len()
                == 0,
            old(self)@.state == ActorState::Starting && ok ==> final(self)@ == (ActorView {
                state: ActorState::Ready,
                ..old(self)@
            }) && failed@.len() == 0,
            old(self)@.state == ActorState::Starting && !ok ==> final(self)@ == (ActorView {
                state: ActorState::Stopped,
                mailbox: Seq::empty(),
                open: false,
                ..old(self)@
            }) && failed@ == old(self)@.mailbox,
    {
        if !matches!(self.state, ActorState::Starting) {
            return Vec::new();
        }
        if ok {
            self.state = ActorState::Ready;
            Vec::new()
        } else {
            self.state = ActorState::Stopped;
            self.open = false;
            let mut failed: Vec<u64> = Vec::new();
            core::mem::swap(&mut self.mailbox, &mut failed);
            failed
        }
    }

    /// A sender hands over the request `request`.
    ///
    /// It is queued behind the others while the actor can be reached and the
    /// queue has room.
    pub fn send(&mut self, request: u64) -> (r: Result<(), SendError>)
        requires
            old(self).wf(),
        ensures
            final(self).wf(),
            match r {
                Ok(_) => {
                    &&& old(self)@.open
                    &&& old(self)@.mailbox.len() < old(self)@.capacity
                    &&& final(self)@ == (ActorView {
                        mailbox: old(self)@.mailbox.push(request),
                        ..old(self)@
                    })
                    &&& owed(final(self)@) == owed(old(self)@).push(request)
                },
                Err(e) => {
                    &&& final(self)@ == old(self)@
                    &&& e == SendError::Closed <==> !old(self)@.open
                    &&& e == SendError::Full ==> old(self)@.mailbox.len() == old(self)@.capacity
                },
            },
    {
        if !self.open {
            return Err(SendError::Closed);
        }
        if self.mailbox.len() >= self.capacity {
            return Err(SendError::Full);
        }
        self.mailbox.push(request);
        proof {
            assert(owed(self@) =~= owed(old(self)@).push(request));
        }
        Ok(())
    }

    /// The actor is told to stop. It goes on with the page that it builds
    /// and leaves when it next looks at its messages.
    pub fn signal_stop(&mut self)
        requires
            old(self).wf(),
        ensures
            final(self).wf(),
            final(self)@ == (ActorView {
                state: if old(self)@.state == ActorState::Stopped {
                    ActorState::Stopped
                } else {
                    ActorState::Draining
                },
                ..old(self)@
            }),
    {
        if !matches!(self.state, ActorState::Stopped) {
            self.state = ActorState::Draining;
        }
    }

    /// The channel to the actor is dropped: from now on no request can be
    /// handed over.
    pub fn close(&mut self)
        requires
            old(self).wf(),
        ensures
            final(self).wf(),
            final(self)@ == (ActorView { open: false, ..old(self)@ }),
    {
        self.open = false;
    }

    /// The actor looks at its messages.
    ///
    /// An actor that was told to stop leaves, and what is still queued fails.
    /// An actor that is ready takes the oldest request. An actor that is
    /// starting, building a page or gone does neither.
    pub fn select(&mut self) -> (r: ActorAction)
        requires
            old(self).wf(),
        ensures
            final(self).wf(),
            match r {
                ActorAction::Exit(failed) => {
                    &&& old(self)@.state == ActorState::Draining
                    &&& old(self)@.job is None
                    &&& failed@ == old(self)@.mailbox
                    &&& final(self)@ == (ActorView {
                        state: ActorState::Stopped,
                        mailbox: Seq::empty(),
                        open: false,
                        ..old(self)@
                    })
                },
                ActorAction::Build(request) => {
                    &&& old(self)@.state == ActorState::Ready
                    &&& old(self)@.mailbox.len() > 0
                    &&& request == old(self)@.mailbox[0]
                    &&& final(self)@ == (ActorView {
                        state: ActorState::Processing,
                        mailbox: old(self)@.mailbox.drop_first(),
                        job: Some(request),
                        ..old(self)@
                    })
                    &&& owed(final(self)@) == owed(old(self)@)
                },
                ActorAction::Wait => {
                    &&& final(self)@ == old(self)@
                    &&& !(old(self)@.state == ActorState::Draining && old(self)@.job is None)
                    &&& !(old(self)@.state == ActorState::Ready && old(self)@.mailbox.len() > 0)
                },
            },
    {
        match self.state {
            ActorState::Draining => {
                if self.job.is_some() {
                    return ActorAction::Wait;
                }
                self.state = ActorState::Stopped;
                self.open = false;
                let mut failed: Vec<u64> = Vec::new();
                core::mem::swap(&mut self.mailbox, &mut failed);
                ActorAction::Exit(failed)
            },
            ActorState::Ready => {
                if self.mailbox.len() == 0 {
                    return ActorAction::Wait;
                }
                let request = self.mailbox.remove(0);
                self.job = Some(request);
                self.state = ActorState::Processing;
                proof {
                    assert(self@.mailbox =~= old(self)@.mailbox.drop_first());
                    assert(owed(self@) =~= owed(old(self)@));
                }
                ActorAction::Build(request)
            },
            _ => ActorAction::Wait,
        }
    }

    /// The page was built, or building it failed, and the one answer to the
    /// request was sent. Hands back the request that was answered; `None`
    /// where no page was being built.
    pub fn finish(&mut self) -> (r: Option<u64>)
        requires
            old(self).wf(),
        ensures
            final(self).wf(),
            r == old(self)@.job,
            final(self)@ == (ActorView {
                state: if old(self)@.state == ActorState::Processing {
                    ActorState::Ready
                } else {
                    old(self)@.state
                },
                job: None,
                ..old(self)@
            }),
            r is Some ==> owed(old(self)@) == seq![r.unwrap()] + owed(final(self)@),
    {
        let done = self.job;
        self.job = None;
        if matches!(self.state, ActorState::Processing) {
            self.state = ActorState::Ready;
        }
        done
    }

    /// The thread of the actor ended without leaving in order. Every request
    /// that is owed fails, and they are handed back in their order.
    pub fn died(&mut self) -> (failed: Vec<u64>)
        requires
            old(self).wf(),
        ensures
            final(self).wf(),
            failed@ == owed(old(self)@),
            final(self)@ == (ActorView {
                state: ActorState::Stopped,
                mailbox: Seq::empty(),
                job: None,
                open: false,
                ..old(self)@
            }),
    {
        let mut failed: Vec<u64> = Vec::new();
        match self.job {
            Some(j) => {
                failed.push(j);
            },
            None => {},
        }
        let mut queued: Vec<u64> = Vec::new();
        core::mem::swap(&mut self.mailbox, &mut queued);
        failed.append(&mut queued);
        self.job = None;
        self.state = ActorState::Stopped;
        self.open = false;
        failed
    }
}

/// One step of what the manager asks the program around it to do.
#[derive(Clone, Copy, Debug, PartialEq, Eq, Structural)]
pub enum ManagerStep {
    /// Tell the actor to stop.
    Drain(u64),
    /// Start an actor with a fresh engine and a fresh channel.
    Spawn(u64),
    /// Make the channel of the actor the one that requests are sent to.
    Swap(u64),
    /// Drop the channel of the actor.
    Close(u64),
    /// Wait for the thread of the actor to end.
    Join(u64),
    /// Stop listening for HTTP requests.
    CloseListener,
}

/// A manager, as a mathematical value.
pub struct ManagerView {
    /// The actor that requests are sent to.
    pub live: Option<u64>,
    /// The actors that were replaced and whose threads have not ended yet.
    pub retiring: Seq<u64>,
    /// The number that the next actor gets.
    pub next: u64,
}

/// What holds of a manager at any time: every actor that it knows has a
/// number below the next one, and the live actor is not among the retiring
/// ones.
pub open spec fn manager_wf(v: ManagerView) -> bool {
    &&& v.live is Some ==> v.live.unwrap() < v.next
    &&& forall|i: int| 0 <= i < v.retiring.len() ==> #[trigger] v.retiring[i] < v.next
    &&& v.live is Some ==> !v.retiring.contains(v.live.unwrap())
}

/// The steps of a restart that replaces the actor `old` by the actor `new`.
pub open spec fn restart_steps(old: u64, new: u64) -> Seq<ManagerStep> {
    seq![
        ManagerStep::Drain(old),
        ManagerStep::Spawn(new),
        ManagerStep::Swap(new),
        ManagerStep::Close(old),
        ManagerStep::Join(old),
    ]
}

/// The steps that stop the actor `old` and the server.
pub open spec fn stop_steps(old: u64) -> Seq<ManagerStep> {
    seq![
        ManagerStep::Drain(old),
        ManagerStep::Close(old),
        ManagerStep::Join(old),
        ManagerStep::CloseListener,
    ]
}

/// The steps that replace the actor `old`, whose thread has ended, by the
/// actor `new`.
pub open spec fn recover_steps(old: u64, new: u64) -> Seq<ManagerStep> {
    seq![
        ManagerStep::Spawn(new),
        ManagerStep::Swap(new),
        ManagerStep::Close(old),
        ManagerStep::Join(old),
    ]
}

/// The environment manager: it knows which actor is live.
#[derive(Debug)]
pub struct Manager {
    live: Option<u64>,
    retiring: Vec<u64>,
    next: u64,
}

impl View for Manager {
    type V = ManagerView;

    closed spec fn view(&self) -> ManagerView {
        ManagerView { live: self.live, retiring: self.retiring@, next: self.next }
    }
}

impl Manager {
    /// See `manager_wf`.
    pub open spec fn wf(&self) -> bool {
        manager_wf(self@)
    }

    /// A manager whose live actor has the number 0.
    pub fn new() -> (r: Manager)
        ensures
            r.wf(),
            r@.live == Some(0u64),
            r@.retiring == Seq::<u64>::empty(),
            r@.next == 1,
    {
        Manager { live: Some(0), retiring: Vec::new(), next: 1 }
    }

    /// The actor that a request that arrives now is sent to. After a stop
    /// there is none.
    pub fn route(&self) -> (r: Result<u64, ChannelError>)
        ensures
            match r {
                Ok(actor) => self@.live == Some(actor),
                Err(_) => self@.live is None,
            },
    {
        match self.live {
            Some(actor) => Ok(actor),
            None => Err(ChannelError),
        }
    }

    /// The number of actors that were replaced and whose threads have not
    /// ended yet.
    pub fn retiring(&self) -> (r: usize)
        ensures
            r == self@.retiring.len(),
    {
        self.retiring.len()
    }

    /// Replaces the live actor by a new one and hands back the steps to
    /// take, in order. After a stop nothing is left to replace, and when the
    /// numbers for actors have run out nothing is replaced.
    pub fn restart(&mut self) -> (steps: Vec<ManagerStep>)
        requires
            old(self).wf(),
        ensures
            final(self).wf(),
            match old(self)@.live {
                Some(actor) => if old(self)@.next < u64::MAX {
                    &&& steps@ == restart_steps(actor, old(self)@.next)
                    &&& final(self)@ == (ManagerView {
                        live: Some(old(self)@.next),
                        retiring: old(self)@.retiring.push(actor),
                        next: (old(self)@.next + 1) as u64,
                    })
                } else {
                    steps@.len() == 0 && final(self)@ == old(self)@
                },
                None => steps@.len() == 0 && final(self)@ == old(self)@,
            },
    {
        if self.next == u64::MAX {
            return Vec::new();
        }
        match self.live {
            Some(actor) => {
                let new = self.next;
                self.retiring.push(actor);
                self.live = Some(new);
                self.next = new + 1;
                let mut steps: Vec<ManagerStep> = Vec::new();
                steps.push(ManagerStep::Drain(actor));
                steps.push(ManagerStep::Spawn(new));
                steps.push(ManagerStep::Swap(new));
                steps.push(ManagerStep::Close(actor));
                steps.push(ManagerStep::Join(actor));
                proof {
                    assert(steps@ =~= restart_steps(actor, new));
                    assert forall|i: int| 0 <= i < self@.retiring.len() implies self@.retiring[i]
                        != new by {
                        if i < old(self)@.retiring.len() {
                            assert(self@.retiring[i] == old(self)@.retiring[i]);
                        }
                    }
                }
                steps
            },
            None => Vec::new(),
        }
    }

    /// Stops the live actor and the server and hands back the steps to take,
    /// in order. From now on no request is accepted.
    pub fn stop(&mut self) -> (steps: Vec<ManagerStep>)
        requires
            old(self).wf(),
        ensures
            final(self).wf(),
            final(self)@.live is None,
            final(self)@.next == old(self)@.next,
            match old(self)@.live {
                Some(actor) => steps@ == stop_steps(actor) && final(self)@.retiring == old(
                    self,
                )@.retiring.push(actor),
                None => steps@.len() == 0 && final(self)@ == old(self)@,
            },
    {
        match self.live {
            Some(actor) => {
                self.retiring.push(actor);
                self.live = None;
                let mut steps: Vec<ManagerStep> = Vec::new();
                steps.push(ManagerStep::Drain(actor));
                steps.push(ManagerStep::Close(actor));
                steps.push(ManagerStep::Join(actor));
                steps.push(ManagerStep::CloseListener);
                proof {
                    assert(steps@ =~= stop_steps(actor));
                }
                steps
            },
            None => Vec::new(),
        }
    }

    /// Does what `command` asks for: see `restart` and `stop`.
    pub fn command(&mut self, command: Command) -> (steps: Vec<ManagerStep>)
        requires
            old(self).wf(),
        ensures
            final(self).wf(),
            match (command, old(self)@.live) {
                (Command::Restart, Some(actor)) => if old(self)@.next < u64::MAX {
                    &&& steps@ == restart_steps(actor, old(self)@.next)
                    &&& final(self)@.live == Some(old(self)@.next)
                    &&& final(self)@.retiring == old(self)@.retiring.push(actor)
                    &&& final(self)@.next == old(self)@.next + 1
                } else {
                    steps@.len() == 0 && final(self)@ == old(self)@
                },
                (Command::Stop, Some(actor)) => {
                    &&& steps@ == stop_steps(actor)
                    &&& final(self)@.live is None
                    &&& final(self)@.retiring == old(self)@.retiring.push(actor)
                    &&& final(self)@.next == old(self)@.next
                },
                (_, None) => steps@.len() == 0 && final(self)@ == old(self)@,
            },
    {
        match command {
            Command::Restart => self.restart(),
            Command::Stop => self.stop(),
        }
    }

    /// The thread of the actor `actor` has ended without being told to. Where
    /// it was the live actor it is replaced, as on a restart; the steps to
    /// take are handed back. When the numbers for actors have run out nothing
    /// is replaced.
    pub fn actor_died(&mut self, actor: u64) -> (steps: Vec<ManagerStep>)
        requires
            old(self).wf(),
        ensures
            final(self).wf(),
            if old(self)@.live == Some(actor) && old(self)@.next < u64::MAX {
                &&& steps@ == recover_steps(actor, old(self)@.next)
                &&& final(self)@ == (ManagerView {
                    live: Some(old(self)@.next),
                    retiring: old(self)@.retiring.push(actor),
                    next: (old(self)@.next + 1) as u64,
                })
            } else {
                steps@.len() == 0 && final(self)@ == old(self)@
            },
    {
        let is_live = match self.live {
            Some(live) => live == actor,
            None => false,
        };
        if !is_live || self.next == u64::MAX {
            return Vec::new();
        }
        let new = self.next;
        self.retiring.push(actor);
        self.live = Some(new);
        self.next = new + 1;
        let mut steps: Vec<ManagerStep> = Vec::new();
        steps.push(ManagerStep::Spawn(new));
        steps.push(ManagerStep::Swap(new));
        steps.push(ManagerStep::Close(actor));
        steps.push(ManagerStep::Join(actor));
        proof {
            assert(steps@ =~= recover_steps(actor, new));
            assert forall|i: int| 0 <= i < self@.retiring.len() implies self@.retiring[i]
                != new by {
                if i < old(self)@.retiring.len() {
                    assert(self@.retiring[i] == old(self)@.retiring[i]);
                }
            }
        }
        steps
    }

    /// The thread of the actor `actor` has ended and was joined: the actor is
    /// no longer retiring.
    pub fn joined(&mut self, actor: u64)
        requires
            old(self).wf(),
        ensures
            final(self).wf(),
            final(self)@.live == old(self)@.live,
            final(self)@.next == old(self)@.next,
            final(self)@.retiring == old(self)@.retiring.filter(|a: u64| a != actor),
    {
        let mut kept: Vec<u64> = Vec::new();
        let mut i: usize = 0;
        let ghost all = self.retiring@;
        let ghost keep = |a: u64| a != actor;
        proof {
            assert(all.take(0) =~= Seq::<u64>::empty());
            assert(all.take(0).filter(keep) =~= Seq::<u64>::empty()) by {
                reveal(Seq::filter);
            }
        }
        while i < self.retiring.len()
            invariant
                i <= self.retiring.len(),
                all == self.retiring@,
                self.live == old(self).live,
                self.next == old(self).next,
                keep == (|a: u64| a != actor),
                kept@ == all.take(i as int).filter(keep),
            decreases self.retiring.len() - i,
        {
            let a = self.retiring[i];
            proof {
                assert(all.take(i as int + 1).drop_last() =~= all.take(i as int));
                reveal(Seq::filter);
            }
            if a != actor {
                kept.push(a);
            }
            i += 1;
        }
        proof {
            assert(all.take(i as int) =~= all);
            assert forall|k: int| 0 <= k < kept@.len() implies #[trigger] kept@[k] < self.next by {
                let a = kept@[k];
                assert(all.filter(keep).contains(a));
                all.lemma_filter_contains_rev(keep, a);
                let j = choose|j: int| 0 <= j < all.len() && all[j] == a;
                assert(old(self)@.retiring[j] < old(self)@.next);
            }
            if self.live is Some && kept@.contains(self.live.unwrap()) {
                assert(all.filter(keep).contains(self.live.unwrap()));
                all.lemma_filter_contains_rev(keep, self.live.unwrap());
                assert(all.contains(self.live.unwrap()));
            }
        }
        self.retiring = kept;
    }
}

/// The text of the `file` URL of the file at `path`; `None` where the path
/// has none, as a path that is not absolute.
pub uninterp spec fn file_url_text(path: Seq<char>) -> Option<Seq<char>>;

/// `Url::from_file_path` of the `url` crate, and the text of the URL that it
/// gives; `None` where it refuses the path, as it does for a path that is
/// not absolute. The outcome depends on the path alone.
#[verifier::external_body]
fn file_url(path: &str) -> (r: Option<String>)
    ensures
        match r {
            Some(u) => file_url_text(path@) == Some(u@),
            None => file_url_text(path@) is None,
        },
{
    url::Url::from_file_path(path).ok().map(|u| u.to_string())
}

/// What the server does with a request.
#[derive(Debug, PartialEq, Eq)]
pub enum Route {
    /// Send the file back as it is.
    Asset(SrcFile),
    /// Build the page of the file and send its HTML back.
    Build {
        /// The URL of the module of the page.
        url: String,
        /// The source of the page.
        file: SrcFile,
        /// The path of the page inside the site.
        path: String,
        /// The source makes the pages of its directory.
        generator: bool,
    },
    /// The source of the page has no URL.
    Unaddressable(SrcFile),
    /// No source answers the request.
    NotFound,
}

/// What the server does with the source file `file` that answers a request
/// for the site path `path`, given the URL of the file, if it has one.
pub fn route_to(file: SrcFile, path: String, url: Option<String>) -> (r: Route)
    ensures
        r == if file.kind == SrcKind::Jsx || file.kind == SrcKind::Mdx {
            match url {
                Some(url) => Route::Build { url, file, path, generator: file.generator },
                None => Route::Unaddressable(file),
            }
        } else {
            Route::Asset(file)
        },
{
    if file.kind.is_page() {
        match url {
            Some(url) => {
                let generator = file.generator;
                Route::Build { url, file, path, generator }
            },
            None => Route::Unaddressable(file),
        }
    } else {
        Route::Asset(file)
    }
}

/// What the server does with a request for the path `request`: the path
/// without the `/` at its ends is looked up among the source files; a page
/// source is built from the URL of its file, any other file is sent back as
/// it is.
pub fn route(files: &SrcFs, request: &str) -> (r: Route)
    ensures
        match resolution(files.files(), joined(files.root_text(), trimmed(request@))) {
            None => r is NotFound,
            Some(i) => {
                let f = files.files()[i];
                if f.kind == SrcKind::Jsx || f.kind == SrcKind::Mdx {
                    match file_url_text(f.path@) {
                        Some(u) => {
                            &&& r is Build
                            &&& r->url@ == u
                            &&& r->file == f
                            &&& r->path@ == trimmed(request@)
                            &&& r->generator == f.generator
                        },
                        None => r is Unaddressable && r->Unaddressable_0 == f,
                    }
                } else {
                    r is Asset && r->Asset_0 == f
                }
            },
        },
{
    let relative = trim_slashes(request);
    match files.find(relative.as_str()) {
        None => Route::NotFound,
        Some(file) => {
            let url = if file.kind.is_page() {
                file_url(file.path.as_str())
            } else {
                None
            };
            route_to(file, relative, url)
        },
    }
}

/// What the server answers.
#[derive(Debug, PartialEq, Eq)]
pub struct Reply {
    /// The HTTP status.
    pub status: u16,
    /// The body.
    pub body: String,
}

/// The answer to a request whose page was built: the HTML with status 200.
pub fn page_reply(html: String) -> (r: Reply)
    ensures
        r.status == 200,
        r.body == html,
{
    Reply { status: 200, body: html }
}

/// The answer to a request that failed with the message `message`: status
/// 500 and the message behind a fixed introduction.
pub fn error_reply(message: &str) -> (r: Reply)
    ensures
        r.status == 500,
        r.body@ == "Something went wrong: "@ + message@,
{
    let mut body = String::new();
    body.append("Something went wrong: ");
    body.append(message);
    assert(body@ =~= "Something went wrong: "@ + message@);
    Reply { status: 500, body }
}

/// The answer to a request that no source answers: status 404.
pub fn not_found_reply() -> (r: Reply)
    ensures
        r.status == 404,
        r.body@ == "Something went wrong: "@ + "could not find page"@,
{
    let mut body = String::new();
    body.append("Something went wrong: ");
    body.append("could not find page");
    assert(body@ =~= "Something went wrong: "@ + "could not find page"@);
    Reply { status: 404, body }
}

} // verus!
