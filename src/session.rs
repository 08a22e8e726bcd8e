//! The decisions of one test run, apart from the I/O that carries them out:
//! waiting for the tester's address, queuing prompts for the implementation
//! under test, and which answers go back to the test server.
use vstd::prelude::*;
use crate::bd_addr::BdAddr;
use crate::mmi::Interaction;
use crate::pts::{MMIStyle, Message};

verus! {

/// Why a test run failed.
#[derive(Debug)]
pub enum RunError {
    /// Reading the server's output or writing its input failed.
    IO(String),
    /// The HCI piping failed.
    Pipe(String),
    /// The implementation under test failed to answer a prompt.
    Interact(String),
    /// The server ended before it gave the tester's address.
    NoAddress,
    /// Nothing happened for longer than the inactivity timeout.
    Timeout,
    /// A test step was left while another one was open.
    UnbalancedSteps(String),
}

/// Why installing the test suite failed.
#[derive(Debug)]
pub enum InstallError {
    /// The Windows runtime could not be set up.
    Wine(String),
    /// The server could not be put in place.
    Server(String),
}

/// The description of the prompt that announces the start of a test.
pub open spec fn started_description(test: Seq<char>, profile: Seq<char>) -> Seq<char> {
    "{test_started,"@ + test + ","@ + profile + "}"@
}

/// Descriptions of the queued prompts whose answers go to the server.
pub open spec fn answered_kinds(q: Seq<(Interaction, bool)>) -> Seq<Seq<char>>
    decreases q.len(),
{
    if q.len() == 0 {
        Seq::empty()
    } else if q[0].1 {
        seq![q[0].0.description@] + answered_kinds(q.subrange(1, q.len() as int))
    } else {
        answered_kinds(q.subrange(1, q.len() as int))
    }
}

proof fn lemma_answered_push(q: Seq<(Interaction, bool)>, x: (Interaction, bool))
    ensures
        answered_kinds(q.push(x)) == if x.1 {
            answered_kinds(q).push(x.0.description@)
        } else {
            answered_kinds(q)
        },
    decreases q.len(),
{
    let qx = q.push(x);
    if q.len() == 0 {
        assert(qx.subrange(1, qx.len() as int) =~= Seq::<(Interaction, bool)>::empty());
        assert(answered_kinds(qx.subrange(1, qx.len() as int)) =~= Seq::<Seq<char>>::empty());
        assert(answered_kinds(q) =~= Seq::<Seq<char>>::empty());
        assert(qx[0] == x);
        assert(seq![x.0.description@] + Seq::<Seq<char>>::empty() =~= Seq::<Seq<char>>::empty().push(
            x.0.description@,
        ));
    } else {
        let rest = q.subrange(1, q.len() as int);
        assert(qx.subrange(1, qx.len() as int) =~= rest.push(x));
        assert(qx[0] == q[0]);
        lemma_answered_push(rest, x);
        let d = q[0].0.description@;
        let e = x.0.description@;
        assert(seq![d] + answered_kinds(rest).push(e) =~= (seq![d] + answered_kinds(rest)).push(e));
        assert(answered_kinds(qx) == if q[0].1 {
            seq![d] + answered_kinds(rest.push(x))
        } else {
            answered_kinds(rest.push(x))
        });
    }
}

/// The state of one test run.
pub struct Session {
    test: String,
    profile: String,
    pts_addr: Option<BdAddr>,
    queue: Vec<(Interaction, bool)>,
    in_flight: Option<bool>,
    in_flight_description: Ghost<Seq<char>>,
    asked: Ghost<Seq<Seq<char>>>,
    written: Ghost<Seq<Seq<char>>>,
}

impl Session {
    /// Descriptions of the prompts of the server, in arrival order.
    pub closed spec fn asked(&self) -> Seq<Seq<char>> {
        self.asked@
    }

    /// Descriptions of the prompts whose answers were sent to the server,
    /// in the order they were sent.
    pub closed spec fn written(&self) -> Seq<Seq<char>> {
        self.written@
    }

    /// The tester's address, once the server gave it.
    pub closed spec fn address(&self) -> Option<BdAddr> {
        self.pts_addr
    }

    /// Whether no prompt is queued or out.
    pub closed spec fn idle(&self) -> bool {
        self.queue@.len() == 0 && self.in_flight is None
    }

    /// Whether a prompt is out with the implementation under test.
    pub closed spec fn busy(&self) -> bool {
        self.in_flight is Some
    }

    /// The queued prompts, in the order they go out: the tester's
    /// address, the dialog kind and the description of each.
    pub closed spec fn queued(&self) -> Seq<(BdAddr, MMIStyle, Seq<char>)> {
        Seq::new(
            self.queue@.len(),
            |i: int|
                (self.queue@[i].0.pts_addr, self.queue@[i].0.style, self.queue@[i].0.description@),
        )
    }

    pub closed spec fn test_name(&self) -> Seq<char> {
        self.test@
    }

    pub closed spec fn profile_name(&self) -> Seq<char> {
        self.profile@
    }

    /// Prompts still to answer, in arrival order.
    pub closed spec fn pending(&self) -> Seq<Seq<char>> {
        (if self.in_flight == Some(true) {
            seq![self.in_flight_description@]
        } else {
            Seq::empty()
        }) + answered_kinds(self.queue@)
    }

    pub closed spec fn wf(&self) -> bool {
        &&& self.asked@ == self.written@ + self.pending()
        &&& self.pts_addr is None ==> self.queue@.len() == 0 && self.in_flight is None
    }

    pub fn new(test: String, profile: String) -> (r: Self)
        ensures
            r.wf(),
            r.idle(),
            r.queued() == Seq::<(BdAddr, MMIStyle, Seq<char>)>::empty(),
            r.address() is None,
            r.test_name() == test@,
            r.profile_name() == profile@,
            r.asked() == Seq::<Seq<char>>::empty(),
            r.written() == Seq::<Seq<char>>::empty(),
    {
        let r = Session {
            test,
            profile,
            pts_addr: None,
            queue: Vec::new(),
            in_flight: None,
            in_flight_description: Ghost(Seq::empty()),
            asked: Ghost(Seq::empty()),
            written: Ghost(Seq::empty()),
        };
        assert(r.pending() =~= Seq::<Seq<char>>::empty());
        assert(r.asked@ =~= r.written@ + r.pending());
        r
    }

    /// Takes one message of the server. Until the tester's address arrives
    /// nothing is passed on; the address queues the prompt that announces
    /// the test. After it, every message is passed on, and each prompt is
    /// queued for the implementation under test.
    pub fn on_message(&mut self, msg: Message) -> (r: Option<Message>)
        requires
            old(self).wf(),
        ensures
            final(self).wf(),
            final(self).written() == old(self).written(),
            final(self).busy() == old(self).busy(),
            final(self).test_name() == old(self).test_name(),
            final(self).profile_name() == old(self).profile_name(),
            match old(self).address() {
                None => r is None && final(self).asked() == old(self).asked() && match msg {
                    Message::Addr { value } => final(self).address() == Some(value)
                        && final(self).queued() == seq![
                        (
                            value,
                            MMIStyle::OkOnly,
                            started_description(old(self).test_name(), old(self).profile_name()),
                        ),
                    ],
                    _ => final(self).address() is None && final(self).queued() == old(
                        self,
                    ).queued(),
                },
                Some(a) => final(self).address() == Some(a) && r == Some(msg) && match msg {
                    Message::ImplicitSend { description, style } => final(self).asked()
                        == old(self).asked().push(description@) && final(self).queued() == old(
                        self,
                    ).queued().push((a, style, description@)),
                    _ => final(self).asked() == old(self).asked() && final(self).queued() == old(
                        self,
                    ).queued(),
                },
            },
    {
        match self.pts_addr {
            None => {
                if let Message::Addr { value } = msg {
                    let mut description = "{test_started,".to_string();
                    description.append(self.test.as_str());
                    description.append(",");
                    description.append(self.profile.as_str());
                    description.append("}");
                    let ghost q = self.queue@;
                    let ghost d = description@;
                    let item = (Interaction::new(value, MMIStyle::OkOnly, description), false);
                    self.queue.push(item);
                    proof {
                        lemma_answered_push(q, item);
                        assert(d =~= started_description(self.test@, self.profile@));
                        assert(self.queued() =~= seq![(value, MMIStyle::OkOnly, d)]);
                    }
                    self.pts_addr = Some(value);
                }
                None
            },
            Some(addr) => {
                if let Message::ImplicitSend { description, style } = &msg {
                    let ghost q = self.queue@;
                    let item = (Interaction::new(addr, *style, description.clone()), true);
                    self.queue.push(item);
                    proof {
                        lemma_answered_push(q, item);
                        assert(self.queued() =~= Seq::new(
                            q.len(),
                            |i: int| (q[i].0.pts_addr, q[i].0.style, q[i].0.description@),
                        ).push((addr, *style, description@)));
                        self.asked@ = self.asked@.push(description@);
                        assert(self.asked@ =~= self.written@ + self.pending());
                    }
                }
                Some(msg)
            },
        }
    }

    /// Whether no prompt is queued or out.
    pub fn is_idle(&self) -> (r: bool)
        ensures
            r == self.idle(),
    {
        self.queue.len() == 0 && self.in_flight.is_none()
    }

    /// Whether the run is over: the server's output ended, every prompt was
    /// answered, and the HCI piping ended.
    pub fn is_finished(&self, server_ended: bool, piping: bool) -> (r: bool)
        ensures
            r == (server_ended && self.idle() && !piping),
    {
        server_ended && self.is_idle() && !piping
    }

    /// The server's output ended: fails where the tester's address never came.
    pub fn on_end(&self) -> (r: Result<(), RunError>)
        ensures
            r is Ok <==> self.address() is Some,
            r matches Err(e) ==> e is NoAddress,
    {
        match self.pts_addr {
            Some(_) => Ok(()),
            None => Err(RunError::NoAddress),
        }
    }

    /// The next queued prompt for the implementation under test, in order.
    pub fn next_interaction(&mut self) -> (r: Option<Interaction>)
        requires
            old(self).wf(),
            !old(self).busy(),
        ensures
            final(self).wf(),
            final(self).asked() == old(self).asked(),
            final(self).written() == old(self).written(),
            final(self).address() == old(self).address(),
            final(self).test_name() == old(self).test_name(),
            final(self).profile_name() == old(self).profile_name(),
            r is Some <==> final(self).busy(),
            r is None ==> final(self).idle(),
            r matches Some(i) ==> old(self).queued().len() > 0 && (i.pts_addr, i.style, i.description@)
                == old(self).queued()[0] && final(self).queued() == old(self).queued().subrange(
                1,
                old(self).queued().len() as int,
            ),
    {
        if self.queue.len() == 0 {
            return None;
        }
        let ghost q = self.queue@;
        let (interaction, answer) = self.queue.remove(0);
        proof {
            assert(self.queue@ =~= q.subrange(1, q.len() as int));
            assert(self.queued() =~= Seq::new(
                q.len(),
                |i: int| (q[i].0.pts_addr, q[i].0.style, q[i].0.description@),
            ).subrange(
                1,
                q.len() as int,
            ));
            self.in_flight_description@ = interaction.description@;
        }
        self.in_flight = Some(answer);
        proof {
            assert(self.asked@ =~= self.written@ + self.pending());
        }
        Some(interaction)
    }

    /// The implementation under test answered the prompt that is out: the
    /// line to send to the server, none for the prompt that announces the
    /// test.
    pub fn on_answer(&mut self, answer: String) -> (r: Option<String>)
        requires
            old(self).wf(),
            old(self).busy(),
        ensures
            final(self).wf(),
            !final(self).busy(),
            final(self).asked() == old(self).asked(),
            final(self).address() == old(self).address(),
            final(self).queued() == old(self).queued(),
            final(self).test_name() == old(self).test_name(),
            final(self).profile_name() == old(self).profile_name(),
            match r {
                Some(line) => line@ == answer@ && old(self).pending().len() > 0
                    && final(self).written() == old(self).written().push(old(self).pending()[0]),
                None => final(self).written() == old(self).written(),
            },
    {
        let write = match self.in_flight {
            Some(w) => w,
            None => false,
        };
        let ghost p = self.pending();
        self.in_flight = None;
        if write {
            proof {
                self.written@ = self.written@.push(self.in_flight_description@);
                assert(p =~= seq![self.in_flight_description@] + answered_kinds(self.queue@));
                assert(self.pending() =~= answered_kinds(self.queue@));
                assert(self.asked@ =~= self.written@ + self.pending());
            }
            Some(answer)
        } else {
            proof {
                assert(self.pending() =~= p);
            }
            None
        }
    }
}

/// Once no prompt is queued or out, the answers sent to the server are
/// exactly one per prompt of the server, in arrival order.
pub proof fn lemma_one_answer_per_prompt(s: Session)
    requires
        s.wf(),
        s.idle(),
    ensures
        s.written() == s.asked(),
{
    assert(s.pending() =~= Seq::<Seq<char>>::empty());
    assert(s.asked() =~= s.written());
}

} // verus!
