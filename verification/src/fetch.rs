//! The Fetch Standard state the content process keeps for a fetch: header
//! lists, requests and responses, the fetch controller's state machine and
//! the fetch group that terminates its ongoing fetches.
use vstd::prelude::*;

verus! {

/// A header list: name/value pairs in the order they were appended.
pub struct HeaderList {
    pub headers: Vec<(String, String)>,
}

impl View for HeaderList {
    type V = Seq<(Seq<char>, Seq<char>)>;

    open spec fn view(&self) -> Seq<(Seq<char>, Seq<char>)> {
        self.headers@.map_values(|h: (String, String)| (h.0@, h.1@))
    }
}

impl HeaderList {
    /// An empty header list.
    pub fn new() -> (list: Self)
        ensures
            list@ == Seq::<(Seq<char>, Seq<char>)>::empty(),
    {
        let list = HeaderList { headers: Vec::new() };
        assert(list@ =~= Seq::<(Seq<char>, Seq<char>)>::empty());
        list
    }

    /// The header list that a bare content type stands for: empty when the
    /// content type is empty, otherwise the single header
    /// `content-type: <content_type>`.
    pub fn from_content_type(content_type: &str) -> (list: Self)
        ensures
            content_type@.len() == 0 ==> list@ == Seq::<(Seq<char>, Seq<char>)>::empty(),
            content_type@.len() != 0 ==> list@ == seq![("content-type"@, content_type@)],
    {
        proof {
            reveal_strlit("content-type");
        }
        if content_type.unicode_len() == 0 {
            return HeaderList::new();
        }
        let mut headers: Vec<(String, String)> = Vec::new();
        headers.push((String::from_str("content-type"), String::from_str(content_type)));
        let list = HeaderList { headers };
        assert(list@ =~= seq![("content-type"@, content_type@)]);
        list
    }

    /// A copy of the list.
    pub fn copy(&self) -> (out: Self)
        ensures
            out@ == self@,
    {
        let mut headers: Vec<(String, String)> = Vec::new();
        let mut i: usize = 0;
        while i < self.headers.len()
            invariant
                i <= self.headers@.len(),
                headers@.len() == i,
                forall|k: int|
                    0 <= k < i ==> (#[trigger] headers@[k]).0@ == self.headers@[k].0@
                        && headers@[k].1@ == self.headers@[k].1@,
            decreases self.headers@.len() - i,
        {
            let name = self.headers[i].0.clone();
            let value = self.headers[i].1.clone();
            headers.push((name, value));
            i = i + 1;
        }
        let out = HeaderList { headers };
        assert(out@ =~= self@);
        out
    }
}

/// A request, as the fields the fetch algorithms read.
pub struct InternalFetchRequest {
    pub url: String,
    pub method: String,
    pub header_list: HeaderList,
    pub body: String,
    /// The done flag.
    pub done: bool,
    /// The keepalive flag.
    pub keepalive: bool,
}

impl InternalFetchRequest {
    /// Sets the request's done flag.
    pub fn mark_done(&mut self)
        ensures
            final(self).done,
            final(self).keepalive == old(self).keepalive,
            final(self).url@ == old(self).url@,
            final(self).method@ == old(self).method@,
            final(self).header_list@ == old(self).header_list@,
            final(self).body@ == old(self).body@,
    {
        self.done = true;
    }
}

/// A response as the network hands it to content.
pub struct InternalFetchResponse {
    pub url_list: Vec<String>,
    pub status: u16,
    pub header_list: HeaderList,
    /// The content type, carried beside the header list.
    pub content_type: String,
    pub body: Vec<u8>,
}

/// The state of a fetch controller.
#[derive(Clone, Copy, Debug, PartialEq, Eq, Structural)]
pub enum FetchControllerState {
    Ongoing,
    Terminated,
    Aborted,
}

/// A fetch controller: its state and, once aborted, the serialized reason.
pub struct FetchController {
    pub state: FetchControllerState,
    pub serialized_abort_reason: Option<String>,
}

/// The name of the error a fetch is aborted with when no error is given.
pub open spec fn fallback_abort_error() -> Seq<char> {
    "AbortError"@
}

impl FetchController {
    /// A controller in the "ongoing" state with no abort reason.
    pub fn new() -> (c: Self)
        ensures
            c.state == FetchControllerState::Ongoing,
            c.serialized_abort_reason is None,
    {
        FetchController { state: FetchControllerState::Ongoing, serialized_abort_reason: None }
    }

    /// Aborts the controller: its state becomes "aborted" and its serialized
    /// abort reason the given error, or an "AbortError" where none is given.
    pub fn abort(&mut self, error: Option<String>)
        ensures
            final(self).state == FetchControllerState::Aborted,
            final(self).serialized_abort_reason is Some,
            final(self).serialized_abort_reason.unwrap()@ == match error {
                Some(e) => e@,
                None => fallback_abort_error(),
            },
    {
        self.state = FetchControllerState::Aborted;
        let fallback_error = String::from_str("AbortError");
        let error = match error {
            Some(e) => e,
            None => fallback_error,
        };
        self.serialized_abort_reason = Some(error);
    }

    /// Terminates the controller: its state becomes "terminated".
    pub fn terminate(&mut self)
        ensures
            final(self).state == FetchControllerState::Terminated,
            final(self).serialized_abort_reason == old(self).serialized_abort_reason,
    {
        self.state = FetchControllerState::Terminated;
    }
}

/// The parameters of one fetch: its request and its controller.
pub struct FetchParams {
    pub request: InternalFetchRequest,
    pub controller: FetchController,
}

impl FetchParams {
    /// Fetch params for a request, with a new controller.
    pub fn new(request: InternalFetchRequest) -> (p: Self)
        ensures
            p.request == request,
            p.controller.state == FetchControllerState::Ongoing,
            p.controller.serialized_abort_reason is None,
    {
        FetchParams { request, controller: FetchController::new() }
    }

    /// Whether the fetch is aborted: its controller's state is "aborted".
    pub fn is_aborted(&self) -> (r: bool)
        ensures
            r == (self.controller.state == FetchControllerState::Aborted),
    {
        match self.controller.state {
            FetchControllerState::Aborted => true,
            _ => false,
        }
    }

    /// Whether the fetch is canceled: its controller's state is "aborted"
    /// or "terminated".
    pub fn is_canceled(&self) -> (r: bool)
        ensures
            r == (self.controller.state == FetchControllerState::Aborted
                || self.controller.state == FetchControllerState::Terminated),
    {
        match self.controller.state {
            FetchControllerState::Aborted => true,
            FetchControllerState::Terminated => true,
            FetchControllerState::Ongoing => false,
        }
    }
}

/// A deferred fetch record.
pub struct DeferredFetchRecord;

/// A fetch record: a request and the controller of its fetch.
pub struct FetchRecord {
    pub request: InternalFetchRequest,
    pub controller: FetchController,
}

/// A fetch group: the fetch records and deferred fetch records of an
/// environment.
pub struct FetchGroup {
    pub fetch_records: Vec<FetchRecord>,
    pub deferred_fetch_records: Vec<DeferredFetchRecord>,
}

/// Whether terminating a fetch group terminates the fetch of this record:
/// its request is neither done nor keepalive.
pub open spec fn terminated_by_group(record: FetchRecord) -> bool {
    !record.request.done && !record.request.keepalive
}

/// What terminating a fetch group leaves of one of its records.
pub open spec fn record_after_group_terminate(record: FetchRecord) -> FetchRecord {
    if terminated_by_group(record) {
        FetchRecord {
            request: record.request,
            controller: FetchController {
                state: FetchControllerState::Terminated,
                serialized_abort_reason: record.controller.serialized_abort_reason,
            },
        }
    } else {
        record
    }
}

impl FetchGroup {
    /// An empty fetch group.
    pub fn new() -> (g: Self)
        ensures
            g.fetch_records@.len() == 0,
            g.deferred_fetch_records@.len() == 0,
    {
        FetchGroup { fetch_records: Vec::new(), deferred_fetch_records: Vec::new() }
    }

    /// Appends a fetch record.
    pub fn push_fetch_record(&mut self, record: FetchRecord)
        ensures
            final(self).fetch_records@ == old(self).fetch_records@.push(record),
            final(self).deferred_fetch_records@ == old(self).deferred_fetch_records@,
    {
        self.fetch_records.push(record);
    }

    /// Terminates the group: the controller of each record whose request is
    /// neither done nor keepalive is terminated; every other record is left
    /// as it was.
    pub fn terminate(&mut self)
        ensures
            final(self).fetch_records@.len() == old(self).fetch_records@.len(),
            forall|i: int|
                0 <= i < old(self).fetch_records@.len() ==> #[trigger] final(self).fetch_records@[i]
                    == record_after_group_terminate(old(self).fetch_records@[i]),
            final(self).deferred_fetch_records@ == old(self).deferred_fetch_records@,
    {
        let ghost before = self.fetch_records@;
        let ghost deferred = self.deferred_fetch_records@;
        let mut i: usize = 0;
        while i < self.fetch_records.len()
            invariant
                i <= self.fetch_records@.len(),
                self.deferred_fetch_records@ == deferred,
                self.fetch_records@.len() == before.len(),
                forall|k: int|
                    0 <= k < i ==> #[trigger] self.fetch_records@[k] == record_after_group_terminate(
                        before[k],
                    ),
                forall|k: int| i <= k < before.len() ==> #[trigger] self.fetch_records@[k] == before[k],
            decreases before.len() - i,
        {
            if !self.fetch_records[i].request.done && !self.fetch_records[i].request.keepalive {
                self.fetch_records[i].controller.state = FetchControllerState::Terminated;
            }
            i = i + 1;
        }
    }
}

} // verus!
