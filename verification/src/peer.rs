//! The decisions of a JSON-RPC peer: which methods it serves, which of its calls wait for a
//! response, and what to do with each message that comes in.
use vstd::prelude::*;
use crate::json::JsonValue;
use crate::message::{RpcMessage, RpcRequest, RpcResponse};
use crate::rpc::{RpcError, RpcErrorKind, RpcId};
use crate::text::{chars_of, string_from_chars, text_is};

verus! {

/// The bookkeeping of a peer: the methods it has handlers for, the ids of its calls that
/// wait for a response, and the id its next call gets.
pub struct PeerState {
    handlers: Vec<String>,
    pending: Vec<i64>,
    next_id: i64,
}

/// What a peer does with a message that came in.
#[derive(Debug, PartialEq, Eq)]
pub enum PeerAction {
    /// Hand the result to the call with this id, which waits no more.
    Deliver(i64, Result<JsonValue, RpcError>),
    /// Nothing to do.
    Ignore,
    /// Stop serving with this error: a response without id reported it.
    Fail(RpcError),
    /// Run the handler of the request's method, and answer with its result unless the id
    /// is null.
    Run(RpcRequest),
    /// Send this response back at once.
    Reply(RpcResponse),
}

/// `a` answers request `q`, under its id, that its method is not found.
pub open spec fn is_not_found_reply(a: PeerAction, q: RpcRequest) -> bool {
    &&& a matches PeerAction::Reply(resp)
    &&& resp.id == q.id
    &&& (resp.result matches Err(e) && e.kind_view() == RpcErrorKind::MethodNotFound
        && e.data_view() == "no shuch method: "@ + q.method@)
}

impl PeerState {
    /// The methods that have a handler.
    pub closed spec fn handler_names(&self) -> Set<Seq<char>> {
        Set::new(
            |n: Seq<char>| exists|k: int| 0 <= k < self.handlers@.len() && #[trigger] self.handlers@[k]@ == n,
        )
    }

    /// The ids of the calls that wait for a response.
    pub closed spec fn pending_calls(&self) -> Set<i64> {
        Set::new(|i: i64| self.pending@.contains(i))
    }

    /// The id of the next call.
    pub closed spec fn next_call(&self) -> i64 {
        self.next_id
    }

    /// Every waiting call has an id below the next one, and no id waits twice.
    pub closed spec fn wf(&self) -> bool {
        &&& 0 <= self.next_id
        &&& self.pending@.no_duplicates()
        &&& forall|k: int| 0 <= k < self.pending@.len() ==> 0 <= #[trigger] self.pending@[k] < self.next_id
    }

    /// A peer with no handlers and no call made.
    pub fn new() -> (r: Self)
        ensures
            r.wf(),
            r.handler_names() == Set::<Seq<char>>::empty(),
            r.pending_calls() == Set::<i64>::empty(),
            r.next_call() == 0,
    {
        let r = PeerState { handlers: Vec::new(), pending: Vec::new(), next_id: 0 };
        assert(r.handler_names() =~= Set::<Seq<char>>::empty());
        assert(r.pending_calls() =~= Set::<i64>::empty());
        r
    }

    fn find_handler(&self, method: &str) -> (r: bool)
        ensures
            r == self.handler_names().contains(method@),
    {
        let mut k: usize = 0;
        while k < self.handlers.len()
            invariant
                k <= self.handlers@.len(),
                forall|j: int| 0 <= j < k ==> #[trigger] self.handlers@[j]@ != method@,
            decreases self.handlers@.len() - k,
        {
            if text_is(self.handlers[k].as_str(), method) {
                return true;
            }
            k = k + 1;
        }
        false
    }

    /// Gives `method` a handler; true where it had one already, which is replaced.
    pub fn register(&mut self, method: String) -> (replaced: bool)
        requires
            old(self).wf(),
        ensures
            final(self).wf(),
            replaced == old(self).handler_names().contains(method@),
            final(self).handler_names() == old(self).handler_names().insert(method@),
            final(self).pending_calls() == old(self).pending_calls(),
            final(self).next_call() == old(self).next_call(),
    {
        if self.find_handler(method.as_str()) {
            proof {
                assert(self.handler_names() =~= self.handler_names().insert(method@));
            }
            true
        } else {
            let ghost before = self.handler_names();
            self.handlers.push(method);
            proof {
                let n = self.handlers@.len() - 1;
                assert(self.handlers@[n]@ == method@);
                assert forall|x: Seq<char>| self.handler_names().contains(x) <==> before.insert(method@).contains(x) by {
                    if before.contains(x) {
                        let k = choose|k: int| 0 <= k < old(self).handlers@.len() && #[trigger] old(self).handlers@[k]@ == x;
                        assert(self.handlers@[k] == old(self).handlers@[k]);
                    }
                    if self.handler_names().contains(x) && x != method@ {
                        let k = choose|k: int| 0 <= k < self.handlers@.len() && #[trigger] self.handlers@[k]@ == x;
                        assert(k < n);
                        assert(old(self).handlers@[k] == self.handlers@[k]);
                    }
                }
                assert(self.handler_names() =~= before.insert(method@));
            }
            false
        }
    }

    /// Starts a call: its id is the next one, which now waits for a response.
    pub fn start_call(&mut self) -> (id: i64)
        requires
            old(self).wf(),
            old(self).next_call() < i64::MAX,
        ensures
            final(self).wf(),
            id == old(self).next_call(),
            !old(self).pending_calls().contains(id),
            final(self).pending_calls() == old(self).pending_calls().insert(id),
            final(self).next_call() == id + 1,
            final(self).handler_names() == old(self).handler_names(),
    {
        let id = self.next_id;
        proof {
            if self.pending@.contains(id) {
                let k = choose|k: int| 0 <= k < self.pending@.len() && self.pending@[k] == id;
                assert(self.pending@[k] < self.next_id);
            }
        }
        self.pending.push(id);
        self.next_id = id + 1;
        proof {
            let before = old(self).pending@;
            let after = self.pending@;
            assert(after == before.push(id));
            assert forall|x: i64| #[trigger] after.contains(x) <==> (before.contains(x) || x == id) by {
                if before.contains(x) {
                    let j = choose|j: int| 0 <= j < before.len() && before[j] == x;
                    assert(after[j] == x);
                }
                if after.contains(x) && x != id {
                    let j = choose|j: int| 0 <= j < after.len() && after[j] == x;
                    assert(j < before.len());
                    assert(before[j] == x);
                }
                if x == id {
                    assert(after[before.len() as int] == id);
                }
            }
            assert(self.pending_calls() =~= old(self).pending_calls().insert(id));
            assert(self.handler_names() =~= old(self).handler_names());
        }
        id
    }

    fn pending_index(&self, id: i64) -> (r: Option<usize>)
        ensures
            match r {
                Some(k) => k < self.pending@.len() && self.pending@[k as int] == id,
                None => !self.pending@.contains(id),
            },
    {
        let mut k: usize = 0;
        while k < self.pending.len()
            invariant
                k <= self.pending@.len(),
                forall|j: int| 0 <= j < k ==> self.pending@[j] != id,
            decreases self.pending@.len() - k,
        {
            if self.pending[k] == id {
                return Some(k);
            }
            k = k + 1;
        }
        None
    }

    /// What to do with a message that came in.
    ///
    /// A response with a null id stops the serving where it carries an error; a response
    /// to a waiting call is handed to it; other responses are dropped. A request is run
    /// where its method has a handler; otherwise a request with an id is answered that the
    /// method is not found.
    pub fn handle(&mut self, message: RpcMessage) -> (action: PeerAction)
        requires
            old(self).wf(),
        ensures
            final(self).wf(),
            final(self).handler_names() == old(self).handler_names(),
            final(self).next_call() == old(self).next_call(),
            match message {
                RpcMessage::Response(r) => match r.id {
                    RpcId::Null => {
                        &&& final(self).pending_calls() == old(self).pending_calls()
                        &&& match r.result {
                            Ok(_) => action == PeerAction::Ignore,
                            Err(e) => action == PeerAction::Fail(e),
                        }
                    },
                    RpcId::Int(i) => if old(self).pending_calls().contains(i) {
                        &&& action == PeerAction::Deliver(i, r.result)
                        &&& final(self).pending_calls() == old(self).pending_calls().remove(i)
                    } else {
                        action == PeerAction::Ignore && final(self).pending_calls()
                            == old(self).pending_calls()
                    },
                    RpcId::String(_) => action == PeerAction::Ignore && final(self).pending_calls()
                        == old(self).pending_calls(),
                },
                RpcMessage::Request(q) => {
                    &&& final(self).pending_calls() == old(self).pending_calls()
                    &&& if old(self).handler_names().contains(q.method@) {
                        action == PeerAction::Run(q)
                    } else if q.id is Null {
                        action == PeerAction::Ignore
                    } else {
                        is_not_found_reply(action, q)
                    }
                },
            },
    {
        match message {
            RpcMessage::Response(r) => match r.id {
                RpcId::Null => match r.result {
                    Ok(_) => PeerAction::Ignore,
                    Err(e) => PeerAction::Fail(e),
                },
                RpcId::Int(i) => match self.pending_index(i) {
                    Some(k) => {
                        self.pending.remove(k);
                        proof {
                            let before = old(self).pending@;
                            let after = self.pending@;
                            assert(after == before.remove(k as int));
                            assert forall|x: i64| #[trigger] after.contains(x) <==> (before.contains(x) && x != i) by {
                                if after.contains(x) {
                                    let j = choose|j: int| 0 <= j < after.len() && after[j] == x;
                                    if j < k {
                                        assert(before[j] == x);
                                    } else {
                                        assert(before[j + 1] == x);
                                    }
                                }
                                if before.contains(x) && x != i {
                                    let j = choose|j: int| 0 <= j < before.len() && before[j] == x;
                                    if j < k {
                                        assert(after[j] == x);
                                    } else {
                                        assert(after[j - 1] == x);
                                    }
                                }
                            }
                            assert(self.pending_calls() =~= old(self).pending_calls().remove(i));
                        }
                        PeerAction::Deliver(i, r.result)
                    },
                    None => PeerAction::Ignore,
                },
                RpcId::String(_) => PeerAction::Ignore,
            },
            RpcMessage::Request(q) => {
                if self.find_handler(q.method.as_str()) {
                    PeerAction::Run(q)
                } else if q.id.is_null() {
                    PeerAction::Ignore
                } else {
                    let mut text = chars_of("no shuch method: ");
                    let mut name = chars_of(q.method.as_str());
                    text.append(&mut name);
                    let error = RpcError::with_data(
                        RpcErrorKind::MethodNotFound,
                        string_from_chars(text.as_slice()),
                    );
                    PeerAction::Reply(RpcResponse { result: Err(error), id: q.id })
                }
            },
        }
    }
}

} // verus!
