//! The order in which endpoints are tried when a session is opened or
//! reopened.

use vstd::prelude::*;
use vstd::string::*;

use super::config::endpoints_view;
use crate::connection::{Endpoint, EndpointView};
use crate::error::{Error, ErrorView};
use crate::time::Duration;

verus! {

/// What to do next on the way to a connection.
#[derive(Debug)]
pub enum WalkStep {
    /// Try this endpoint.
    Try(Endpoint),
    /// Wait before the next pass over the endpoints.
    Pause(Duration),
    /// Every endpoint has been tried often enough: report this error.
    GiveUp(Error),
}

/// A walk over endpoints: each pass tries all of them in order.
#[derive(Debug)]
pub struct EndpointWalk {
    /// In the order of a pass.
    endpoints: Vec<Endpoint>,
    passes: usize,
    /// The wait between passes, if there is one.
    pause: Option<Duration>,
    /// Passes completed.
    pass: usize,
    /// Endpoints tried in this pass.
    index: usize,
    /// Whether the wait before this pass is over.
    paused: bool,
    last_error: Option<Error>,
    /// What to report if no try has failed.
    fallback: String,
}

/// An error's view, where there is an error.
pub open spec fn error_view(e: Option<Error>) -> Option<ErrorView> {
    match e {
        Some(e) => Some(e@),
        None => None,
    }
}

/// A walk: the endpoints of a pass, the number of passes, the pause between
/// them, how far it has come and the error of the last failed try.
#[verifier::ext_equal]
pub struct WalkView {
    pub endpoints: Seq<EndpointView>,
    pub passes: nat,
    pub pause: Option<Duration>,
    pub pass: nat,
    pub index: nat,
    pub paused: bool,
    pub last_error: Option<ErrorView>,
    pub fallback: Seq<char>,
}

impl WalkView {
    pub open spec fn wf(self) -> bool {
        &&& self.endpoints.len() > 0
        &&& self.pass < self.passes
        &&& self.index <= self.endpoints.len()
    }

    /// The endpoints that are tried from here on while every try fails.
    pub open spec fn tries(self) -> Seq<EndpointView> {
        self.endpoints.subrange(self.index as int, self.endpoints.len() as int) + repeated(
            self.endpoints,
            (self.passes - self.pass - 1) as nat,
        )
    }

    /// Whether a pause comes next: at the beginning of every pass but the
    /// first, once.
    pub open spec fn pause_due(self) -> bool {
        self.index == 0 && self.pass > 0 && !self.paused && self.pause is Some
    }

    /// The walk at the beginning of the next pass.
    pub open spec fn next_pass(self) -> WalkView {
        WalkView { pass: self.pass + 1, index: 0, paused: false, ..self }
    }

    /// The walk from which the next step is taken: the next pass begins where
    /// the last one has ended, if there is another.
    pub open spec fn ready(self) -> WalkView {
        if self.index == self.endpoints.len() && self.pass + 1 < self.passes {
            self.next_pass()
        } else {
            self
        }
    }
}

/// `s` as often as `n` says, one after the other.
pub open spec fn repeated(s: Seq<EndpointView>, n: nat) -> Seq<EndpointView>
    decreases n,
{
    if n == 0 {
        Seq::empty()
    } else {
        s + repeated(s, (n - 1) as nat)
    }
}

/// `s` from position `start` on, and around to it.
pub open spec fn rotated(s: Seq<EndpointView>, start: int) -> Seq<EndpointView> {
    Seq::new(s.len(), |i: int| s[(start + i) % s.len() as int])
}

impl View for EndpointWalk {
    type V = WalkView;

    closed spec fn view(&self) -> WalkView {
        WalkView {
            endpoints: endpoints_view(self.endpoints@),
            passes: self.passes as nat,
            pause: self.pause,
            pass: self.pass as nat,
            index: self.index as nat,
            paused: self.paused,
            last_error: error_view(self.last_error),
            fallback: self.fallback@,
        }
    }
}

/// The endpoints from position `start` on, and around to it.
fn rotate(endpoints: &Vec<Endpoint>, start: usize) -> (out: Vec<Endpoint>)
    requires
        start < endpoints@.len(),
    ensures
        endpoints_view(out@) == rotated(endpoints_view(endpoints@), start as int),
{
    let n: usize = endpoints.len();
    let mut out: Vec<Endpoint> = Vec::new();
    let mut i: usize = 0;
    while i < n
        invariant
            i == out@.len() <= n,
            n == endpoints@.len(),
            start < n,
            forall|k: int|
                0 <= k < i ==> (#[trigger] out@[k])@ == endpoints@[(start + k) % n as int]@,
        decreases n - i,
    {
        let at: usize = if i < n - start {
            start + i
        } else {
            i - (n - start)
        };
        proof {
            assert((start + i) % n as int == at) by (nonlinear_arith)
                requires
                    0 <= i < n,
                    0 <= start < n,
                    at == if i < n - start {
                        start + i
                    } else {
                        i - (n - start)
                    },
            ;
        }
        out.push(endpoints[at].clone());
        i += 1;
    }
    assert(endpoints_view(out@) =~= rotated(endpoints_view(endpoints@), start as int));
    out
}

impl EndpointWalk {
    /// A walk of `passes` passes that each begin at position `start`.
    pub fn new(
        endpoints: &Vec<Endpoint>,
        start: usize,
        passes: usize,
        pause: Option<Duration>,
        fallback: &str,
    ) -> (walk: EndpointWalk)
        requires
            start < endpoints@.len(),
            passes > 0,
        ensures
            walk@.wf(),
            walk@ == (WalkView {
                endpoints: rotated(endpoints_view(endpoints@), start as int),
                passes: passes as nat,
                pause,
                pass: 0,
                index: 0,
                paused: false,
                last_error: None,
                fallback: fallback@,
            }),
    {
        EndpointWalk {
            endpoints: rotate(endpoints, start),
            passes,
            pause,
            pass: 0,
            index: 0,
            paused: false,
            last_error: None,
            fallback: fallback.to_owned(),
        }
    }

    /// The next step: the next endpoint, the wait before the next pass, or the
    /// end of the walk, which reports the error of the last failed try.
    pub fn next_step(&mut self) -> (step: WalkStep)
        requires
            old(self)@.wf(),
        ensures
            final(self)@.wf(),
            ({
                let at = old(self)@.ready();
                match step {
                    WalkStep::Pause(d) => {
                        &&& at.pause_due()
                        &&& at.pause == Some(d)
                        &&& final(self)@ == (WalkView { paused: true, ..at })
                    },
                    WalkStep::Try(e) => {
                        &&& !at.pause_due()
                        &&& at.index < at.endpoints.len()
                        &&& e@ == at.endpoints[at.index as int]
                        &&& final(self)@ == (WalkView { index: at.index + 1, ..at })
                    },
                    WalkStep::GiveUp(e) => {
                        &&& at.index == at.endpoints.len()
                        &&& e@ == match at.last_error {
                            Some(last) => last,
                            None => ErrorView::Client(at.fallback),
                        }
                        &&& final(self)@ == (WalkView { last_error: None, ..at })
                    },
                }
            }),
    {
        if self.index == self.endpoints.len() && self.pass < self.passes - 1 {
            self.pass = self.pass + 1;
            self.index = 0;
            self.paused = false;
        }
        if self.index == 0 && self.pass > 0 && !self.paused {
            if let Some(d) = self.pause {
                self.paused = true;
                return WalkStep::Pause(d);
            }
        }
        if self.index < self.endpoints.len() {
            let e = self.endpoints[self.index].clone();
            self.index = self.index + 1;
            return WalkStep::Try(e);
        }
        let last = self.last_error.take();
        match last {
            Some(e) => WalkStep::GiveUp(e),
            None => WalkStep::GiveUp(Error::Client(self.fallback.clone())),
        }
    }

    /// Notes that the endpoint tried last failed.
    pub fn failed(&mut self, error: Error)
        requires
            old(self)@.wf(),
        ensures
            final(self)@.wf(),
            final(self)@ == (WalkView { last_error: Some(error@), ..old(self)@ }),
    {
        self.last_error = Some(error);
    }
}

/// A walk begins at its starting endpoint and, while every try fails, tries
/// every endpoint once per pass, in the same order in each.
pub proof fn law_walk_tries_all_endpoints_in_each_pass(
    endpoints: Seq<EndpointView>,
    start: int,
    passes: nat,
    pause: Option<Duration>,
    fallback: Seq<char>,
)
    requires
        0 <= start < endpoints.len(),
        passes > 0,
    ensures
        ({
            let walk = WalkView {
                endpoints: rotated(endpoints, start),
                passes,
                pause,
                pass: 0,
                index: 0,
                paused: false,
                last_error: None,
                fallback,
            };
            &&& walk.tries() == repeated(rotated(endpoints, start), passes)
            &&& walk.tries().len() == passes * endpoints.len()
            &&& walk.tries()[0] == endpoints[start]
        }),
{
    let order = rotated(endpoints, start);
    let walk = WalkView {
        endpoints: order,
        passes,
        pause,
        pass: 0,
        index: 0,
        paused: false,
        last_error: None,
        fallback,
    };
    assert(order.subrange(0, order.len() as int) =~= order);
    lemma_repeated_len(order, passes);
    assert((start + 0) % endpoints.len() as int == start) by (nonlinear_arith)
        requires
            0 <= start < endpoints.len(),
    ;
    assert(walk.tries()[0] == order[0]);
}

proof fn lemma_repeated_len(s: Seq<EndpointView>, n: nat)
    ensures
        repeated(s, n).len() == n * s.len(),
    decreases n,
{
    if n > 0 {
        lemma_repeated_len(s, (n - 1) as nat);
        assert(s.len() + (n - 1) * s.len() == n * s.len()) by (nonlinear_arith);
    } else {
        assert(0 * s.len() == 0) by (nonlinear_arith);
    }
}

/// Each step of a walk either tries the next of the endpoints still to be
/// tried, or leaves them as they are; and the walk gives up only when none is
/// left.
pub proof fn law_walk_steps_consume_the_tries(walk: WalkView)
    requires
        walk.wf(),
    ensures
        walk.ready().tries() == walk.tries(),
        walk.ready().index < walk.endpoints.len() ==> ({
            let after = WalkView { index: walk.ready().index + 1, ..walk.ready() };
            walk.tries() == seq![walk.ready().endpoints[walk.ready().index as int]]
                + after.tries()
        }),
        walk.ready().index == walk.endpoints.len() ==> walk.tries().len() == 0,
{
    let at = walk.ready();
    let n = walk.endpoints.len() as int;
    if walk.index == n && walk.pass + 1 < walk.passes {
        let left = (walk.passes - walk.pass - 1) as nat;
        assert(walk.endpoints.subrange(n, n) =~= Seq::empty());
        assert(walk.endpoints.subrange(0, n) =~= walk.endpoints);
        assert(walk.tries() =~= repeated(walk.endpoints, left));
        assert(repeated(walk.endpoints, left) == walk.endpoints + repeated(
            walk.endpoints,
            (left - 1) as nat,
        ));
        assert(at.tries() =~= walk.tries());
    }
    if at.index < n {
        let after = WalkView { index: at.index + 1, ..at };
        assert(at.endpoints.subrange(at.index as int, n) =~= seq![at.endpoints[at.index as int]]
            + at.endpoints.subrange(at.index as int + 1, n));
        assert(at.tries() =~= seq![at.endpoints[at.index as int]] + after.tries());
    } else {
        assert(at.endpoints.subrange(n, n) =~= Seq::empty());
        assert(repeated(at.endpoints, 0) =~= Seq::empty());
    }
}

} // verus!
