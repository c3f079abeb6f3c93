//! The line to the network: every request that goes out is noted with its reply.

use vstd::prelude::*;

use crate::error::{Refusal, Result};
use crate::imports::pluggy::{Request, Response, Transport};

verus! {

/// A request, as a contract sees it.
#[verifier::ext_equal]
pub struct Sent {
    pub method: Seq<char>,
    pub url: Seq<char>,
    pub api_key: Seq<char>,
    pub body: Option<Seq<char>>,
}

impl<'a> View for Request<'a> {
    type V = Sent;

    open spec fn view(&self) -> Sent {
        Sent {
            method: self.method@,
            url: self.url@,
            api_key: self.api_key@,
            body: match self.body {
                Some(b) => Some(b@),
                None => None,
            },
        }
    }
}

/// What came back of a request.
pub enum Reply {
    /// The status and the body of an answer.
    Answer(u16, Seq<char>),
    /// Why nothing came back.
    Failure(Refusal),
}

pub open spec fn reply_of(s: Result<Response>) -> Reply {
    match s {
        Ok(a) => Reply::Answer(a.status, a.body@),
        Err(e) => Reply::Failure(e@),
    }
}

/// Whether a transport that is handed the request may give the reply: no other than what its own
/// `send` returned.
pub open spec fn answered<T: Transport>(t: &T, q: Sent, a: Reply) -> bool {
    exists|x: Request<'_>, s: Result<Response>| #[trigger] call_ensures(T::send, (t, x), s) && x@ == q && reply_of(s) == a
}

/// A transport, and what went over it since.
pub struct Wire<'a, T: Transport> {
    transport: &'a T,
    log: Ghost<Seq<(Sent, Reply)>>,
}

impl<'a, T: Transport> Wire<'a, T> {
    pub closed spec fn transport(self) -> &'a T {
        self.transport
    }

    /// The requests that were sent, in their order, each with its reply.
    pub closed spec fn log(self) -> Seq<(Sent, Reply)> {
        self.log@
    }

    pub fn new(transport: &'a T) -> (r: Wire<'a, T>)
        ensures
            r.transport() == transport,
            r.log() == Seq::<(Sent, Reply)>::empty(),
    {
        Wire { transport, log: Ghost(Seq::empty()) }
    }

    /// Sends a request. A failure to send is the transport's own.
    pub fn send(&mut self, request: Request<'_>) -> (r: Result<Response>)
        ensures
            exchanged(*old(self), *final(self), request@, reply_of(r)),
    {
        let ghost q = request@;
        let r = self.transport.send(request);
        proof {
            self.log = Ghost(self.log@.push((q, reply_of(r))));
        }
        r
    }
}

/// Whether one request went out, and nothing else, and what came back of it.
pub open spec fn exchanged<T: Transport>(before: Wire<'_, T>, after: Wire<'_, T>, q: Sent, a: Reply) -> bool {
    &&& after.transport() == before.transport()
    &&& after.log() == before.log().push((q, a))
    &&& answered(before.transport(), q, a)
}

/// Whether the given requests went out, and nothing else, each with its reply.
pub open spec fn carried<T: Transport>(before: Wire<'_, T>, after: Wire<'_, T>, more: Seq<(Sent, Reply)>) -> bool {
    &&& after.transport() == before.transport()
    &&& after.log() == before.log() + more
    &&& forall|i: int| 0 <= i < more.len() ==> answered(before.transport(), (#[trigger] more[i]).0, more[i].1)
}

/// Whether requests only read.
pub open spec fn only_reads(log: Seq<(Sent, Reply)>) -> bool {
    forall|i: int| 0 <= i < log.len() ==> (#[trigger] log[i]).0.method == "GET"@
}

/// What went out in two turns went out in one.
pub proof fn lemma_carried_on<T: Transport>(a: Wire<'_, T>, b: Wire<'_, T>, c: Wire<'_, T>, first: Seq<(Sent, Reply)>, second: Seq<(Sent, Reply)>)
    requires
        carried(a, b, first),
        carried(b, c, second),
    ensures
        carried(a, c, first + second),
{
    assert(a.log() + first + second =~= a.log() + (first + second));
    assert forall|i: int| 0 <= i < (first + second).len() implies answered(
        a.transport(),
        (#[trigger] (first + second)[i]).0,
        (first + second)[i].1,
    ) by {
        if i < first.len() {
            assert((first + second)[i] == first[i]);
        } else {
            assert((first + second)[i] == second[i - first.len()]);
        }
    }
}

/// One exchange, as a list of them.
pub proof fn lemma_carried_one<T: Transport>(a: Wire<'_, T>, b: Wire<'_, T>, q: Sent, r: Reply)
    requires
        exchanged(a, b, q, r),
    ensures
        carried(a, b, seq![(q, r)]),
{
    assert(a.log().push((q, r)) =~= a.log() + seq![(q, r)]);
}

} // verus!
