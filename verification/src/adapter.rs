use vstd::prelude::*;

use crate::app_event::{AppEvent, EventModel};
use crate::wire::{
    decode_dependency_causes, decode_file_entries, get_dependency_causes_body, get_files_body,
    init_body, request_line, spec_decode_causes, spec_decode_entries,
    spec_get_dependency_causes_body, spec_get_files_body, spec_init_body, spec_request_line,
    WireError,
};
use crate::{FilePath, RecomplileDependencyReason};

verus! {

/// A request to fetch the causes behind one (source, sink, reason) triple,
/// produced by the cause panel and carried to the analysis server.
#[derive(Debug)]
pub struct CauseRequest {
    pub source: FilePath,
    pub sink: FilePath,
    pub reason: RecomplileDependencyReason,
}

/// Mathematical model of a [`CauseRequest`].
#[verifier::ext_equal]
pub struct CauseRequestModel {
    pub source: Seq<char>,
    pub sink: Seq<char>,
    pub reason: RecomplileDependencyReason,
}

impl View for CauseRequest {
    type V = CauseRequestModel;

    open spec fn view(&self) -> CauseRequestModel {
        CauseRequestModel { source: self.source@, sink: self.sink@, reason: self.reason }
    }
}

impl DeepView for CauseRequest {
    type V = CauseRequestModel;

    open spec fn deep_view(&self) -> CauseRequestModel {
        self.view()
    }
}

/// What a pending request is waiting for.
#[derive(Clone, Copy, Debug, PartialEq, Eq, Structural)]
pub enum RequestKind {
    GetFiles,
    GetDependencyCauses,
}

/// The verified heart of the protocol adapter: it issues the strictly
/// increasing sequence ids, frames outbound requests, remembers what each
/// id is waiting for, and turns matched response payloads into completion
/// events. The byte transport around it lives in the binary.
pub struct RequestTracker {
    request_sequence_id: usize,
    pending_requests: Vec<(usize, RequestKind)>,
    issued: Ghost<Seq<usize>>,
}

/// The first pending entry waiting on `id`, if any.
pub open spec fn find_pending(pending: Seq<(usize, RequestKind)>, id: usize) -> Option<int>
    decreases pending.len(),
{
    if pending.len() == 0 {
        Option::None
    } else if pending[0].0 == id {
        Option::Some(0)
    } else {
        match find_pending(pending.skip(1), id) {
            Option::Some(ix) => Option::Some(ix + 1),
            Option::None => Option::None,
        }
    }
}

proof fn lemma_find_pending(pending: Seq<(usize, RequestKind)>, id: usize)
    ensures
        match find_pending(pending, id) {
            Option::Some(ix) => 0 <= ix < pending.len() && pending[ix].0 == id,
            Option::None => forall|i: int| 0 <= i < pending.len() ==> pending[i].0 != id,
        },
    decreases pending.len(),
{
    if pending.len() > 0 && pending[0].0 != id {
        lemma_find_pending(pending.skip(1), id);
        match find_pending(pending.skip(1), id) {
            Option::Some(ix) => {
                assert(pending.skip(1)[ix] == pending[ix + 1]);
            },
            Option::None => {
                assert forall|i: int| 0 <= i < pending.len() implies pending[i].0 != id by {
                    if i > 0 {
                        assert(pending.skip(1)[i - 1] == pending[i]);
                    }
                }
            },
        }
    }
}

/// How a batch of drained response lines resolves against the pending
/// requests, in order: a response whose id matches no pending request is
/// ignored; a matching one removes that pending entry and decodes the
/// payload according to what it was waiting for, a decode failure being
/// fatal for the whole poll.
pub open spec fn spec_poll(
    pending: Seq<(usize, RequestKind)>,
    responses: Seq<(usize, Seq<char>)>,
) -> Result<(Seq<(usize, RequestKind)>, Seq<EventModel>), WireError>
    decreases responses.len(),
{
    if responses.len() == 0 {
        Result::Ok((pending, Seq::empty()))
    } else {
        let id = responses[0].0;
        let payload = responses[0].1;
        match find_pending(pending, id) {
            Option::None => spec_poll(pending, responses.skip(1)),
            Option::Some(ix) => {
                let kind = pending[ix].1;
                let pending2 = pending.remove(ix);
                match kind {
                    RequestKind::GetFiles => match spec_decode_entries(payload) {
                        Option::None => Result::Err(WireError::Malformed),
                        Option::Some(entries) => match spec_poll(pending2, responses.skip(1)) {
                            Result::Err(e) => Result::Err(e),
                            Result::Ok((p3, evs)) => Result::Ok(
                                (p3, seq![EventModel::GetFilesDone(entries)] + evs),
                            ),
                        },
                    },
                    RequestKind::GetDependencyCauses => match spec_decode_causes(payload) {
                        Option::None => Result::Err(WireError::Malformed),
                        Option::Some(causes) => match spec_poll(pending2, responses.skip(1)) {
                            Result::Err(e) => Result::Err(e),
                            Result::Ok((p3, evs)) => Result::Ok(
                                (p3, seq![EventModel::GetDependencyCausesDone(causes)] + evs),
                            ),
                        },
                    },
                }
            },
        }
    }
}

/// The views of a batch of drained response lines.
pub open spec fn responses_view(rs: Seq<(usize, String)>) -> Seq<(usize, Seq<char>)> {
    rs.map_values(|r: (usize, String)| (r.0, r.1@))
}

/// A response whose id no pending request carries resolves nothing and
/// leaves the pending requests as they were.
pub proof fn lemma_unmatched_response_resolves_nothing(
    pending: Seq<(usize, RequestKind)>,
    id: usize,
    payload: Seq<char>,
)
    requires
        forall|i: int| 0 <= i < pending.len() ==> pending[i].0 != id,
    ensures
        spec_poll(pending, seq![(id, payload)]) == Result::<
            (Seq<(usize, RequestKind)>, Seq<EventModel>),
            WireError,
        >::Ok((pending, Seq::<EventModel>::empty())),
{
    let responses = seq![(id, payload)];
    lemma_find_pending(pending, id);
    if find_pending(pending, id) is Some {
        let ix = find_pending(pending, id)->0;
        assert(pending[ix].0 == id);
        assert(false);
    }
    assert(responses.skip(1) =~= Seq::<(usize, Seq<char>)>::empty());
    assert(spec_poll(pending, Seq::<(usize, Seq<char>)>::empty()) == Result::<
        (Seq<(usize, RequestKind)>, Seq<EventModel>),
        WireError,
    >::Ok((pending, Seq::<EventModel>::empty())));
    assert(responses[0] == (id, payload));
}

impl RequestTracker {
    /// The sequence ids handed out so far, in the order they were issued.
    pub closed spec fn issued_ids(self) -> Seq<usize> {
        self.issued@
    }

    /// The pending requests: each issued id still awaiting its response,
    /// with what it waits for.
    pub closed spec fn pending(self) -> Seq<(usize, RequestKind)> {
        self.pending_requests@
    }

    /// The tracker's invariant: ids are issued in order starting at zero,
    /// and every pending id was issued.
    pub open spec fn wf(self) -> bool {
        &&& self.issued_ids().len() == self.next_id_spec()
        &&& forall|i: int| 0 <= i < self.issued_ids().len() ==> self.issued_ids()[i] == i
        &&& forall|i: int|
            0 <= i < self.pending().len() ==> (#[trigger] self.pending()[i]).0
                < self.next_id_spec()
    }

    /// The id the next request will carry.
    pub closed spec fn next_id_spec(self) -> int {
        self.request_sequence_id as int
    }

    pub fn new() -> (res: Self)
        ensures
            res.wf(),
            res.issued_ids() == Seq::<usize>::empty(),
            res.pending() == Seq::<(usize, RequestKind)>::empty(),
    {
        let res = RequestTracker {
            request_sequence_id: 0,
            pending_requests: Vec::new(),
            issued: Ghost(Seq::empty()),
        };
        proof {
            assert(res.pending() =~= Seq::<(usize, RequestKind)>::empty());
        }
        res
    }

    /// Whether another sequence id can still be issued.
    pub fn can_issue(&self) -> (r: bool)
        ensures
            r == (self.next_id_spec() < usize::MAX as int),
    {
        self.request_sequence_id < usize::MAX
    }

    /// Frames the control request that initialises the server. No typed
    /// response is awaited, so nothing becomes pending.
    pub fn init_request(&mut self) -> (r: (usize, String))
        requires
            old(self).wf(),
            old(self).issued_ids().len() < usize::MAX,
        ensures
            final(self).wf(),
            r.0 as int == old(self).issued_ids().len(),
            final(self).issued_ids() == old(self).issued_ids().push(r.0),
            final(self).pending() == old(self).pending(),
            r.1@ == spec_request_line(r.0 as nat, spec_init_body()),
    {
        let id = self.request_sequence_id;
        let body = init_body();
        let line = request_line(id, &body);
        self.request_sequence_id = self.request_sequence_id + 1;
        proof {
            self.issued@ = self.issued@.push(id);
            assert forall|i: int| 0 <= i < self.issued_ids().len() implies self.issued_ids()[i]
                == i by {
                if i < self.issued_ids().len() - 1 {
                    assert(self.issued_ids()[i] == old(self).issued_ids()[i]);
                }
            }
            assert forall|i: int| 0 <= i < self.pending().len() implies (
            #[trigger] self.pending()[i]).0 < self.next_id_spec() by {
                if i < old(self).pending().len() {
                    assert(self.pending()[i] == old(self).pending()[i]);
                }
            }
        }
        (id, line)
    }

    /// Frames a listing request; its id becomes pending for the file
    /// listing.
    pub fn get_files_request(&mut self) -> (r: (usize, String))
        requires
            old(self).wf(),
            old(self).issued_ids().len() < usize::MAX,
        ensures
            final(self).wf(),
            r.0 as int == old(self).issued_ids().len(),
            final(self).issued_ids() == old(self).issued_ids().push(r.0),
            final(self).pending() == old(self).pending().push((r.0, RequestKind::GetFiles)),
            r.1@ == spec_request_line(r.0 as nat, spec_get_files_body()),
    {
        let id = self.request_sequence_id;
        let body = get_files_body();
        let line = request_line(id, &body);
        self.pending_requests.push((id, RequestKind::GetFiles));
        self.request_sequence_id = self.request_sequence_id + 1;
        proof {
            self.issued@ = self.issued@.push(id);
            assert forall|i: int| 0 <= i < self.issued_ids().len() implies self.issued_ids()[i]
                == i by {
                if i < self.issued_ids().len() - 1 {
                    assert(self.issued_ids()[i] == old(self).issued_ids()[i]);
                }
            }
            assert forall|i: int| 0 <= i < self.pending().len() implies (
            #[trigger] self.pending()[i]).0 < self.next_id_spec() by {
                if i < old(self).pending().len() {
                    assert(self.pending()[i] == old(self).pending()[i]);
                }
            }
        }
        (id, line)
    }

    /// Frames a cause request for one (source, sink, reason) triple; its
    /// body is exactly the canonical wire object, and its id becomes
    /// pending for the cause list.
    pub fn get_dependency_causes_request(
        &mut self,
        source: &FilePath,
        sink: &FilePath,
        reason: &RecomplileDependencyReason,
    ) -> (r: (usize, String))
        requires
            old(self).wf(),
            old(self).issued_ids().len() < usize::MAX,
        ensures
            final(self).wf(),
            r.0 as int == old(self).issued_ids().len(),
            final(self).issued_ids() == old(self).issued_ids().push(r.0),
            final(self).pending() == old(self).pending().push(
                (r.0, RequestKind::GetDependencyCauses),
            ),
            r.1@ == spec_request_line(
                r.0 as nat,
                spec_get_dependency_causes_body(source@, sink@, *reason),
            ),
    {
        let id = self.request_sequence_id;
        let body = get_dependency_causes_body(source, sink, reason);
        let line = request_line(id, &body);
        self.pending_requests.push((id, RequestKind::GetDependencyCauses));
        self.request_sequence_id = self.request_sequence_id + 1;
        proof {
            self.issued@ = self.issued@.push(id);
            assert forall|i: int| 0 <= i < self.issued_ids().len() implies self.issued_ids()[i]
                == i by {
                if i < self.issued_ids().len() - 1 {
                    assert(self.issued_ids()[i] == old(self).issued_ids()[i]);
                }
            }
            assert forall|i: int| 0 <= i < self.pending().len() implies (
            #[trigger] self.pending()[i]).0 < self.next_id_spec() by {
                if i < old(self).pending().len() {
                    assert(self.pending()[i] == old(self).pending()[i]);
                }
            }
        }
        (id, line)
    }

    /// Resolves a batch of drained response lines against the pending
    /// requests and returns the completion events, in response order.
    pub fn poll_responses(&mut self, responses: &Vec<(usize, String)>) -> (r: Result<
        Vec<AppEvent>,
        WireError,
    >)
        requires
            old(self).wf(),
        ensures
            final(self).wf(),
            final(self).issued_ids() == old(self).issued_ids(),
            match spec_poll(old(self).pending(), responses_view(responses@)) {
                Result::Ok((p, evs)) => (r matches Ok(events) && final(self).pending() == p
                    && events.deep_view() == evs),
                Result::Err(e) => (r matches Err(e2) && e2 == e),
            },
    {
        let ghost rs = responses_view(responses@);
        let mut events: Vec<AppEvent> = Vec::new();
        let mut idx: usize = 0;
        proof {
            assert(rs.skip(0) =~= rs);
            if spec_poll(self.pending(), rs) is Ok {
                let q = spec_poll(self.pending(), rs)->Ok_0;
                assert(events.deep_view() + q.1 =~= q.1);
            }
        }
        while idx < responses.len()
            invariant
                idx <= responses.len(),
                rs == responses_view(responses@),
                rs.len() == responses@.len(),
                self.wf(),
                self.issued_ids() == old(self).issued_ids(),
                match spec_poll(self.pending(), rs.skip(idx as int)) {
                    Result::Ok((p, evs)) => spec_poll(old(self).pending(), rs) == Result::<
                        (Seq<(usize, RequestKind)>, Seq<EventModel>),
                        WireError,
                    >::Ok((p, events.deep_view() + evs)),
                    Result::Err(e) => spec_poll(old(self).pending(), rs) == Result::<
                        (Seq<(usize, RequestKind)>, Seq<EventModel>),
                        WireError,
                    >::Err(e),
                },
            decreases responses.len() - idx,
        {
            let ghost t = rs.skip(idx as int);
            proof {
                assert(t[0] == rs[idx as int]);
                assert(rs[idx as int] == (responses@[idx as int].0, responses@[idx as int].1@));
                assert(t.skip(1) =~= rs.skip(idx as int + 1));
            }
            let id = responses[idx].0;
            // find the first pending request with this id
            let mut found: Option<usize> = None;
            let mut pi: usize = 0;
            while pi < self.pending_requests.len() && found.is_none()
                invariant
                    pi <= self.pending_requests.len(),
                    match found {
                        Option::Some(ix) => find_pending(self.pending(), id) == Option::Some(
                            ix as int,
                        ) && ix < self.pending_requests.len(),
                        Option::None => forall|k: int|
                            0 <= k < pi ==> (#[trigger] self.pending()[k]).0 != id,
                    },
                decreases self.pending_requests.len() - pi + (if found.is_none() {
                    1int
                } else {
                    0int
                }),
            {
                if self.pending_requests[pi].0 == id {
                    found = Some(pi);
                    proof {
                        lemma_find_pending_prefix(self.pending(), id, pi as int);
                    }
                } else {
                    pi = pi + 1;
                }
            }
            proof {
                if found is None {
                    lemma_find_pending(self.pending(), id);
                    if find_pending(self.pending(), id) is Some {
                        let ix = find_pending(self.pending(), id)->0;
                        assert(self.pending()[ix].0 == id);
                        assert(false);
                    }
                }
            }
            match found {
                None => {
                    idx = idx + 1;
                },
                Some(ix) => {
                    let ghost pending_before = self.pending();
                    let removed = self.pending_requests.remove(ix);
                    let kind = removed.1;
                    let payload = &responses[idx].1;
                    proof {
                        assert(responses@[idx as int].1@ == t[0].1);
                        assert(self.pending() == pending_before.remove(ix as int));
                        assert forall|k: int| 0 <= k < self.pending().len() implies (
                        #[trigger] self.pending()[k]).0 < self.next_id_spec() by {
                            if k < ix {
                                assert(self.pending()[k] == pending_before[k]);
                            } else {
                                assert(self.pending()[k] == pending_before[k + 1]);
                            }
                        }
                        assert(kind == pending_before[ix as int].1);
                    }
                    match kind {
                        RequestKind::GetFiles => {
                            match decode_file_entries(payload) {
                                Ok(entries) => {
                                    let ev = AppEvent::GetFilesDone(entries);
                                    let ghost ev_m = ev@;
                                    let ghost events_before = events.deep_view();
                                    events.push(ev);
                                    proof {
                                        assert(events.deep_view() =~= events_before.push(ev_m));
                                        match spec_poll(self.pending(), t.skip(1)) {
                                            Result::Ok((p3, evs)) => {
                                                assert(spec_poll(pending_before, t) == Result::<
                                                    (Seq<(usize, RequestKind)>, Seq<EventModel>),
                                                    WireError,
                                                >::Ok((p3, seq![ev_m] + evs)));
                                                assert(events_before + (seq![ev_m] + evs)
                                                    =~= events.deep_view() + evs);
                                            },
                                            Result::Err(e) => {
                                                assert(spec_poll(pending_before, t) == Result::<
                                                    (Seq<(usize, RequestKind)>, Seq<EventModel>),
                                                    WireError,
                                                >::Err(e));
                                            },
                                        }
                                    }
                                },
                                Err(e) => {
                                    proof {
                                        assert(e == WireError::Malformed);
                                        assert(spec_poll(pending_before, t) == Result::<
                                            (Seq<(usize, RequestKind)>, Seq<EventModel>),
                                            WireError,
                                        >::Err(WireError::Malformed));
                                    }
                                    return Err(e);
                                },
                            }
                        },
                        RequestKind::GetDependencyCauses => {
                            match decode_dependency_causes(payload) {
                                Ok(causes) => {
                                    let ev = AppEvent::GetDependencyCausesDone(causes);
                                    let ghost ev_m = ev@;
                                    let ghost events_before = events.deep_view();
                                    events.push(ev);
                                    proof {
                                        assert(events.deep_view() =~= events_before.push(ev_m));
                                        match spec_poll(self.pending(), t.skip(1)) {
                                            Result::Ok((p3, evs)) => {
                                                assert(spec_poll(pending_before, t) == Result::<
                                                    (Seq<(usize, RequestKind)>, Seq<EventModel>),
                                                    WireError,
                                                >::Ok((p3, seq![ev_m] + evs)));
                                                assert(events_before + (seq![ev_m] + evs)
                                                    =~= events.deep_view() + evs);
                                            },
                                            Result::Err(e) => {
                                                assert(spec_poll(pending_before, t) == Result::<
                                                    (Seq<(usize, RequestKind)>, Seq<EventModel>),
                                                    WireError,
                                                >::Err(e));
                                            },
                                        }
                                    }
                                },
                                Err(e) => {
                                    proof {
                                        assert(e == WireError::Malformed);
                                        assert(spec_poll(pending_before, t) == Result::<
                                            (Seq<(usize, RequestKind)>, Seq<EventModel>),
                                            WireError,
                                        >::Err(WireError::Malformed));
                                    }
                                    return Err(e);
                                },
                            }
                        },
                    }
                    idx = idx + 1;
                },
            }
        }
        proof {
            assert(rs.skip(responses@.len() as int).len() == 0);
            let q = spec_poll(self.pending(), rs.skip(idx as int))->Ok_0;
            assert(events.deep_view() + q.1 =~= events.deep_view());
        }
        Ok(events)
    }
}

/// `find_pending` finds exactly the first matching index.
proof fn lemma_find_pending_prefix(
    pending: Seq<(usize, RequestKind)>,
    id: usize,
    ix: int,
)
    requires
        0 <= ix < pending.len(),
        pending[ix].0 == id,
        forall|k: int| 0 <= k < ix ==> (#[trigger] pending[k]).0 != id,
    ensures
        find_pending(pending, id) == Option::Some(ix),
    decreases ix,
{
    if ix == 0 {
    } else {
        assert(pending[0].0 != id);
        assert(pending.skip(1)[ix - 1] == pending[ix]);
        assert forall|k: int| 0 <= k < ix - 1 implies (#[trigger] pending.skip(1)[k]).0 != id by {
            assert(pending.skip(1)[k] == pending[k + 1]);
        }
        lemma_find_pending_prefix(pending.skip(1), id, ix - 1);
    }
}

/// Ids issued by one tracker are strictly increasing, starting at zero.
pub proof fn lemma_issued_ids_strictly_increasing(t: RequestTracker)
    requires
        t.wf(),
    ensures
        forall|i: int, j: int|
            0 <= i < j < t.issued_ids().len() ==> t.issued_ids()[i] < t.issued_ids()[j],
        t.issued_ids().len() > 0 ==> t.issued_ids()[0] == 0,
{
}

/// The requests a component may ask the analysis server to perform.
/// Completions come back to the dispatcher as events. The binary's
/// process-backed adapter implements this over the subprocess pipe;
/// [`NoopAdapter`] ignores every request.
pub trait ServerAdapter {
    fn init_server(&mut self);

    fn get_files(&mut self);

    fn get_dependency_causes(
        &mut self,
        source: &FilePath,
        sink: &FilePath,
        reason: &RecomplileDependencyReason,
    );
}

/// An adapter that drops every request; used where no server is attached.
#[derive(Debug)]
pub struct NoopAdapter {}

impl NoopAdapter {
    pub fn new() -> (res: Self) {
        NoopAdapter {  }
    }
}

impl ServerAdapter for NoopAdapter {
    fn init_server(&mut self) {
    }

    fn get_files(&mut self) {
    }

    fn get_dependency_causes(
        &mut self,
        _source: &FilePath,
        _sink: &FilePath,
        _reason: &RecomplileDependencyReason,
    ) {
    }
}

} // verus!
