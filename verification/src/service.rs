//! What the HTTP front answers: the status and body of each reply, decided
//! from the state of the service and the outcome of a task.

use vstd::hash_map::StringHashMap;
use vstd::prelude::*;
use vstd::utf8::encode_utf8;

use crate::endpoint::Endpoint;

verus! {

/// Body of the reply to `/` while the service runs.
pub open spec fn response_default() -> Seq<u8> {
    encode_utf8("MOSEC service"@)
}

/// Body of the reply to a request that carries no data.
pub open spec fn response_empty() -> Seq<u8> {
    encode_utf8("no data provided"@)
}

/// Body of every reply while the service shuts down.
pub open spec fn response_shutdown() -> Seq<u8> {
    encode_utf8("gracefully shutting down"@)
}

/// The status and body of an HTTP reply.
pub struct Reply {
    pub status: u16,
    pub body: Vec<u8>,
}

/// How a task ended in the worker pipeline.
#[derive(Clone, Copy, Debug, PartialEq, Eq, Structural)]
pub enum TaskCode {
    Normal,
    BadRequestError,
    ValidationError,
    TimeoutError,
    InternalError,
}

/// Why no task result could be had.
#[derive(Clone, Copy, Debug, PartialEq, Eq, Structural)]
pub enum ServiceError {
    TooManyRequests,
    Timeout,
    UnknownError,
}

fn shutdown_reply() -> (r: Reply)
    ensures
        r.status == 503,
        r.body@ == response_shutdown(),
{
    Reply { status: 503, body: "gracefully shutting down".as_bytes_vec() }
}

/// The reply to `/`: 503 while shutting down, 200 otherwise.
pub fn index_reply(is_shutdown: bool) -> (r: Reply)
    ensures
        r.status == (if is_shutdown { 503u16 } else { 200u16 }),
        r.body@ == (if is_shutdown { response_shutdown() } else { response_default() }),
{
    if is_shutdown {
        shutdown_reply()
    } else {
        Reply { status: 200, body: "MOSEC service".as_bytes_vec() }
    }
}

/// The reply given to an inference request before any task is submitted:
/// 503 while shutting down, 200 with a notice when the request has no data,
/// and none when the request goes on to the workers.
pub fn inference_precheck(is_shutdown: bool, data_len: usize) -> (r: Option<Reply>)
    ensures
        is_shutdown ==> (r matches Some(reply) && reply.status == 503 && reply.body@
            == response_shutdown()),
        !is_shutdown && data_len == 0 ==> (r matches Some(reply) && reply.status == 200
            && reply.body@ == response_empty()),
        !is_shutdown && data_len > 0 ==> r is None,
{
    if is_shutdown {
        Some(shutdown_reply())
    } else if data_len == 0 {
        Some(Reply { status: 200, body: "no data provided".as_bytes_vec() })
    } else {
        None
    }
}

/// The HTTP status of a task that ended with `code`.
pub open spec fn task_code_http_status(code: TaskCode) -> u16 {
    match code {
        TaskCode::Normal => 200u16,
        TaskCode::BadRequestError => 400u16,
        TaskCode::ValidationError => 422u16,
        TaskCode::TimeoutError => 408u16,
        TaskCode::InternalError => 500u16,
    }
}

/// The HTTP status of a request whose task could not be had for `err`.
pub open spec fn service_error_http_status(err: ServiceError) -> u16 {
    match err {
        ServiceError::TooManyRequests => 429u16,
        ServiceError::Timeout => 408u16,
        ServiceError::UnknownError => 500u16,
    }
}

/// The HTTP status of a finished task.
pub fn task_code_status(code: TaskCode) -> (status: u16)
    ensures
        status == task_code_http_status(code),
        code == TaskCode::Normal <==> status == 200,
        code == TaskCode::BadRequestError <==> status == 400,
        code == TaskCode::ValidationError <==> status == 422,
        code == TaskCode::TimeoutError <==> status == 408,
        code == TaskCode::InternalError <==> status == 500,
{
    match code {
        TaskCode::Normal => 200,
        TaskCode::BadRequestError => 400,
        TaskCode::ValidationError => 422,
        TaskCode::TimeoutError => 408,
        TaskCode::InternalError => 500,
    }
}

/// The HTTP status of a request whose task could not be had.
pub fn service_error_status(err: ServiceError) -> (status: u16)
    ensures
        status == service_error_http_status(err),
        err == ServiceError::TooManyRequests <==> status == 429,
        err == ServiceError::Timeout <==> status == 408,
        err == ServiceError::UnknownError <==> status == 500,
{
    match err {
        ServiceError::TooManyRequests => 429,
        ServiceError::Timeout => 408,
        ServiceError::UnknownError => 500,
    }
}

/// What became of a submitted request.
pub enum TaskOutcome {
    /// The task went through the pipeline and ended with `code`; `data` is
    /// what the last stage gave back.
    Finished { code: TaskCode, data: Vec<u8> },
    /// No task result could be had; `text` is the error's message.
    Failed { error: ServiceError, text: Vec<u8> },
}

/// The reply to a request whose task was submitted: the task's data with
/// the status of its code, or the error's message with the status of the
/// error.
pub fn outcome_reply(outcome: TaskOutcome) -> (r: Reply)
    ensures
        match outcome {
            TaskOutcome::Finished { code, data } => r.status == task_code_http_status(code)
                && r.body@ == data@,
            TaskOutcome::Failed { error, text } => r.status == service_error_http_status(error)
                && r.body@ == text@,
        },
{
    match outcome {
        TaskOutcome::Finished { code, data } => Reply { status: task_code_status(code), body: data },
        TaskOutcome::Failed { error, text } => Reply {
            status: service_error_status(error),
            body: text,
        },
    }
}

/// The response mime type of each route after the first `n` pairs of
/// `endpoints` and `mime` were entered; a route named twice keeps its last.
pub open spec fn mime_table_upto(endpoints: Seq<Endpoint>, mime: Seq<String>, n: nat) -> Map<
    Seq<char>,
    Seq<char>,
>
    decreases n,
{
    if n == 0 {
        Map::empty()
    } else {
        mime_table_upto(endpoints, mime, (n - 1) as nat).insert(endpoints[n - 1]@, mime[n - 1]@)
    }
}

/// The response mime type of each route, pairing `endpoints` with `mime`
/// up to the shorter of the two.
pub open spec fn mime_table_spec(endpoints: Seq<Endpoint>, mime: Seq<String>) -> Map<
    Seq<char>,
    Seq<char>,
> {
    let n = if endpoints.len() <= mime.len() {
        endpoints.len()
    } else {
        mime.len()
    };
    mime_table_upto(endpoints, mime, n)
}

/// Pairing routes with mime types pair by pair: a path is in the table
/// exactly when one of the first `n` routes has it, and route `i` maps to
/// `mime[i]` unless a later one of the first `n` routes has the same path.
pub proof fn lemma_mime_table_by_index(endpoints: Seq<Endpoint>, mime: Seq<String>, n: nat)
    requires
        n <= endpoints.len(),
        n <= mime.len(),
    ensures
        forall|k: Seq<char>|
            #[trigger] mime_table_upto(endpoints, mime, n).contains_key(k) <==> exists|i: int|
                #![trigger endpoints[i]]
                0 <= i < n && endpoints[i]@ == k,
        forall|i: int|
            0 <= i < n && (forall|j: int| #![trigger endpoints[j]] i < j < n ==> endpoints[j]@ != endpoints[i]@)
                ==> mime_table_upto(endpoints, mime, n).contains_key(#[trigger] endpoints[i]@)
                && mime_table_upto(endpoints, mime, n)[endpoints[i]@] == mime[i]@,
    decreases n,
{
    if n > 0 {
        lemma_mime_table_by_index(endpoints, mime, (n - 1) as nat);
        let prev = mime_table_upto(endpoints, mime, (n - 1) as nat);
        let m = mime_table_upto(endpoints, mime, n);
        let last = endpoints[n - 1]@;
        assert forall|k: Seq<char>| #[trigger] m.contains_key(k) <==> exists|i: int|
            #![trigger endpoints[i]]
            0 <= i < n && endpoints[i]@ == k by {
            if k == last {
                assert(endpoints[n - 1]@ == k);
            } else {
                if prev.contains_key(k) {
                    let i = choose|i: int| #![trigger endpoints[i]] 0 <= i < n - 1 && endpoints[i]@ == k;
                    assert(endpoints[i]@ == k);
                }
                if exists|i: int| #![trigger endpoints[i]] 0 <= i < n && endpoints[i]@ == k {
                    let i = choose|i: int| #![trigger endpoints[i]] 0 <= i < n && endpoints[i]@ == k;
                    assert(i < n - 1);
                    assert(endpoints[i]@ == k);
                }
            }
        }
        assert forall|i: int|
            0 <= i < n && (forall|j: int| #![trigger endpoints[j]] i < j < n ==> endpoints[j]@ != endpoints[i]@)
            implies m.contains_key(#[trigger] endpoints[i]@) && m[endpoints[i]@] == mime[i]@ by {
            if i < n - 1 {
                assert(endpoints[n - 1]@ != endpoints[i]@);
                assert(forall|j: int| #![trigger endpoints[j]] i < j < n - 1 ==> endpoints[j]@ != endpoints[i]@);
            }
        }
    }
}

/// The response mime type of each route, keyed by the route's path.
pub fn mime_table(endpoints: &Vec<Endpoint>, mime: &Vec<String>) -> (r: StringHashMap<String>)
    ensures
        r@.dom() == mime_table_spec(endpoints@, mime@).dom(),
        forall|k: Seq<char>| #[trigger]
            r@.contains_key(k) ==> r@[k]@ == mime_table_spec(endpoints@, mime@)[k],
        forall|k: Seq<char>|
            #[trigger] r@.contains_key(k) <==> exists|i: int|
                0 <= i < endpoints@.len() && i < mime@.len() && endpoints@[i]@ == k,
        forall|i: int|
            0 <= i < endpoints@.len() && i < mime@.len() && (forall|j: int|
                i < j < endpoints@.len() && j < mime@.len() ==> endpoints@[j]@ != endpoints@[i]@)
                ==> r@.contains_key(#[trigger] endpoints@[i]@) && r@[endpoints@[i]@]@ == mime@[i]@,
{
    proof {
        let n = if endpoints@.len() <= mime@.len() {
            endpoints@.len()
        } else {
            mime@.len()
        };
        lemma_mime_table_by_index(endpoints@, mime@, n);
    }
    let n = if endpoints.len() <= mime.len() {
        endpoints.len()
    } else {
        mime.len()
    };
    let mut table: StringHashMap<String> = StringHashMap::new();
    let mut i: usize = 0;
    while i < n
        invariant
            n <= endpoints@.len(),
            n <= mime@.len(),
            i <= n,
            table@.dom() == mime_table_upto(endpoints@, mime@, i as nat).dom(),
            forall|k: Seq<char>| #[trigger]
                table@.contains_key(k) ==> table@[k]@ == mime_table_upto(endpoints@, mime@, i as nat)[k],
        decreases n - i,
    {
        let key = String::from_str(endpoints[i].path());
        table.insert(key, mime[i].clone());
        i = i + 1;
    }
    table
}

/// The content type that a reply with `status` to `endpoint` carries:
/// the route's mime type on success, none otherwise.
pub fn content_type(status: u16, table: &StringHashMap<String>, endpoint: &Endpoint) -> (r: Option<
    String,
>)
    requires
        status == 200 ==> table@.contains_key(endpoint@),
    ensures
        status == 200 ==> (r matches Some(m) && m@ == table@[endpoint@]@),
        status != 200 ==> r is None,
{
    if status == 200 {
        match table.get(endpoint.path()) {
            Some(m) => Some(m.clone()),
            None => None,
        }
    } else {
        None
    }
}

} // verus!
