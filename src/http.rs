use vstd::prelude::*;
use std::collections::HashMap;

verus! {

broadcast use vstd::std_specs::hash::group_hash_axioms;

/// Status of a fresh response.
pub const OK: u16 = 200;

/// Status sent when a dispatch ends abnormally.
pub const INTERNAL_SERVER_ERROR: u16 = 500;

/// The network address a request came from: the address bytes (4 for IPv4,
/// 16 for IPv6) and the port.
pub struct RemoteAddr {
    pub ip: Vec<u8>,
    pub port: u16,
}

/// Per-request metadata attached before any step runs.
pub struct DispatchContext {
    pub remote: RemoteAddr,
}

/// An inbound request, with a side-table of extension values that a step
/// may set and a later step or the handler may read.
pub struct Request {
    pub method: String,
    pub path: String,
    pub body: Vec<u8>,
    pub remote: Option<RemoteAddr>,
    pub extensions: HashMap<u64, Vec<u8>>,
}

/// An outbound response: a status code and a body.
pub struct Response {
    pub status: u16,
    pub body: Vec<u8>,
}

impl Response {
    /// A fresh response: status 200 and an empty body.
    pub fn new() -> (r: Response)
        ensures
            r.status == OK,
            r.body@.len() == 0,
    {
        Response { status: OK, body: Vec::new() }
    }

    /// A response with the given status and body.
    pub fn with(status: u16, body: Vec<u8>) -> (r: Response)
        ensures
            r.status == status,
            r.body@ == body@,
    {
        Response { status, body }
    }

    /// The generic failure response that stands for an abnormal termination.
    pub fn internal_error() -> (r: Response)
        ensures
            is_internal_error(r),
    {
        Response { status: INTERNAL_SERVER_ERROR, body: Vec::new() }
    }
}

/// `r` is the generic failure response: status 500 and an empty body.
pub open spec fn is_internal_error(r: Response) -> bool {
    r.status == INTERNAL_SERVER_ERROR && r.body@.len() == 0
}

impl Request {
    /// A request with no remote address and no extensions.
    pub fn new(method: String, path: String, body: Vec<u8>) -> (r: Request)
        ensures
            r.method@ == method@,
            r.path@ == path@,
            r.body@ == body@,
            r.remote is None,
            r.extensions@ == Map::<u64, Vec<u8>>::empty(),
    {
        Request { method, path, body, remote: None, extensions: HashMap::new() }
    }

    /// Sets the extension value under `key`, replacing any earlier one.
    pub fn set_extension(&mut self, key: u64, value: Vec<u8>)
        ensures
            final(self).extensions@ == old(self).extensions@.insert(key, value),
            final(self).method == old(self).method,
            final(self).path == old(self).path,
            final(self).body == old(self).body,
            final(self).remote == old(self).remote,
    {
        self.extensions.insert(key, value);
    }

    /// Whether an extension value is set under `key`.
    pub fn has_extension(&self, key: u64) -> (r: bool)
        ensures
            r == self.extensions@.contains_key(key),
    {
        self.extensions.contains_key(&key)
    }

    /// A copy of the extension value under `key`, if one is set.
    pub fn extension(&self, key: u64) -> (r: Option<Vec<u8>>)
        ensures
            r is None <==> !self.extensions@.contains_key(key),
            r is Some ==> r->0@ == self.extensions@[key]@,
    {
        match self.extensions.get(&key) {
            Some(v) => Some(v.clone()),
            None => None,
        }
    }

    /// Attaches the dispatch context: the remote address of the connection.
    pub fn attach(&mut self, ctx: DispatchContext)
        ensures
            final(self).remote == Some(ctx.remote),
            final(self).extensions@ == old(self).extensions@,
            final(self).method == old(self).method,
            final(self).path == old(self).path,
            final(self).body == old(self).body,
    {
        self.remote = Some(ctx.remote);
    }
}

} // verus!
