//! Client configuration, requests, and the decisions around one send.
use std::sync::Arc;
use vstd::prelude::*;
use vstd::string::StringSliceAdditionalSpecFns;

use crate::error::Error;
use crate::error::Kind;
use crate::headers::header_entries;
use crate::headers::header_insert;
use crate::headers::header_map_new;
use crate::headers::header_values;
use crate::headers::is_header_value;
use crate::headers::merge_defaults;
use crate::headers::merged;
use crate::headers::no_entries;
use crate::headers::override_with;
use crate::headers::overridden;
use crate::headers::single_valued;
use crate::headers::HEADER_NAME_ROOM;
use crate::headers::views_of;

verus! {

/// The URL serialization that `url::Url` gives a string, if it parses.
pub uninterp spec fn parsed_url(s: Seq<char>) -> Option<Seq<char>>;

/// Relies on `url::Url::parse` and `Url::as_str`: the serialization of a
/// valid URL, or nothing for a malformed one.
#[verifier::external_body]
fn parse_url(s: &str) -> (r: Option<String>)
    ensures
        match r {
            Some(t) => parsed_url(s@) == Some(t@),
            None => parsed_url(s@) is None,
        },
{
    url::Url::parse(s).ok().map(|u| u.as_str().to_string())
}

/// The name under which the user agent is configured.
pub open spec fn user_agent_name() -> Seq<char> {
    seq!['u', 's', 'e', 'r', '-', 'a', 'g', 'e', 'n', 't']
}

/// The defaults after a user agent `v` was set.
pub open spec fn with_user_agent(e: Map<Seq<char>, Seq<Seq<u8>>>, v: Seq<u8>) -> Map<
    Seq<char>,
    Seq<Seq<u8>>,
> {
    e.insert(user_agent_name(), seq![v])
}

/// The frozen configuration that clones of a client share.
struct Config {
    headers: http::HeaderMap,
}

/// An HTTP method.
#[derive(Clone, Copy, Debug, PartialEq, Eq, Structural)]
pub enum Method {
    Get,
    Post,
    Put,
    Patch,
    Delete,
    Head,
}

/// A request that the caller may still change until it is sent.
pub struct Request {
    pub method: Method,
    /// The serialization of the validated target URL.
    pub url: String,
    pub headers: http::HeaderMap,
    pub body: Option<Vec<u8>>,
    /// A time limit for the send, in milliseconds.
    pub timeout_ms: Option<u64>,
}

/// A shared, read-only client configuration.
pub struct Client {
    config: Arc<Config>,
}

/// Collects a client configuration; an invalid value is remembered and
/// reported by `build`.
pub struct ClientBuilder {
    headers: http::HeaderMap,
    invalid: bool,
}

/// What came of one send raced against its time limit.
pub enum SendEvent<T> {
    /// The transport answered.
    Completed(T),
    /// The transport failed.
    Failed,
    /// The time limit elapsed first; the send was dropped.
    Elapsed,
}

/// Setting the user agent twice keeps the later value.
pub proof fn user_agent_later_wins(e: Map<Seq<char>, Seq<Seq<u8>>>, first: Seq<u8>, second: Seq<u8>)
    ensures
        with_user_agent(with_user_agent(e, first), second)[user_agent_name()] == seq![second],
        with_user_agent(with_user_agent(e, first), second) == with_user_agent(e, second),
{
    assert(with_user_agent(with_user_agent(e, first), second) =~= with_user_agent(e, second));
}

/// Turns the outcome of a send into the facade's result: an answer passes
/// through unchanged, a transport failure is a request error, and an elapsed
/// time limit is a request error marked as timed out.
pub fn settle_send<T>(event: SendEvent<T>) -> (r: Result<T, Error>)
    ensures
        match event {
            SendEvent::Completed(t) => r == Ok::<T, Error>(t),
            SendEvent::Failed => r is Err && r->Err_0.kind == Kind::Request && !r->Err_0.timed_out,
            SendEvent::Elapsed => r is Err && r->Err_0.kind == Kind::Request && r->Err_0.timed_out,
        },
{
    match event {
        SendEvent::Completed(t) => Ok(t),
        SendEvent::Failed => Err(Error::request(false)),
        SendEvent::Elapsed => Err(Error::request(true)),
    }
}

impl Request {
    pub fn new(method: Method, url: String) -> (r: Request)
        ensures
            r.method == method,
            r.url == url,
            header_entries(r.headers) == no_entries(),
            r.body is None,
            r.timeout_ms is None,
    {
        Request { method, url, headers: header_map_new(), body: None, timeout_ms: None }
    }
}

impl ClientBuilder {
    #[verifier::type_invariant]
    spec fn one_value_per_name(&self) -> bool {
        single_valued(header_entries(self.headers)) && header_entries(self.headers).dom().finite()
    }

    pub closed spec fn defaults(&self) -> Map<Seq<char>, Seq<Seq<u8>>> {
        header_entries(self.headers)
    }

    pub closed spec fn failed(&self) -> bool {
        self.invalid
    }

    pub fn new() -> (r: ClientBuilder)
        ensures
            r.defaults() == no_entries(),
            single_valued(r.defaults()),
            !r.failed(),
    {
        ClientBuilder { headers: header_map_new(), invalid: false }
    }

    /// Sets the `User-Agent` default. A value that cannot stand in a header,
    /// or an insert that the header map refuses at its size limit, leaves
    /// the defaults as they were and makes `build` fail.
    pub fn user_agent(self, value: &str) -> (r: ClientBuilder)
        ensures
            !is_header_value(value.spec_bytes()) ==> r.defaults() == self.defaults() && r.failed(),
            is_header_value(value.spec_bytes()) ==> (r.defaults() == with_user_agent(
                self.defaults(),
                value.spec_bytes(),
            ) && r.failed() == self.failed()) || (r.defaults() == self.defaults() && r.failed()),
            is_header_value(value.spec_bytes()) && self.defaults().dom().len() < HEADER_NAME_ROOM
                ==> r.defaults() == with_user_agent(self.defaults(), value.spec_bytes())
                && r.failed() == self.failed(),
            single_valued(r.defaults()),
            r.defaults().dom().finite(),
    {
        proof {
            use_type_invariant(&self);
        }
        let ClientBuilder { mut headers, invalid } = self;
        let name = "user-agent";
        proof {
            reveal_strlit("user-agent");
            assert(name@ =~= user_agent_name());
        }
        let ok = header_insert(&mut headers, name, value.as_bytes());
        ClientBuilder { headers, invalid: invalid || !ok }
    }

    /// Lays `headers` over the defaults: each of its names replaces what the
    /// defaults held under it, with the last value given for that name. An
    /// insert that the header map refuses at its size limit makes `build`
    /// fail.
    pub fn default_headers(self, headers: http::HeaderMap) -> (r: ClientBuilder)
        ensures
            !r.failed() ==> r.defaults() == overridden(
                self.defaults(),
                header_entries(headers),
            ),
            self.failed() ==> r.failed(),
            self.defaults().dom().len() + header_entries(headers).dom().len() < HEADER_NAME_ROOM
                ==> r.defaults() == overridden(self.defaults(), header_entries(headers))
                && r.failed() == self.failed(),
            single_valued(r.defaults()),
            r.defaults().dom().finite(),
    {
        proof {
            use_type_invariant(&self);
        }
        let ClientBuilder { headers: mut own, invalid } = self;
        let ok = override_with(&mut own, &headers);
        ClientBuilder { headers: own, invalid: invalid || !ok }
    }

    /// A client with these defaults, or the error recorded while configuring.
    pub fn build(self) -> (r: Result<Client, Error>)
        ensures
            r is Err <==> self.failed(),
            r matches Ok(c) ==> c.defaults() == self.defaults() && single_valued(c.defaults()),
            r matches Err(e) ==> e.url is None && e.status is None && !e.timed_out,
            r matches Err(e) ==> e.kind == Kind::Builder,
    {
        proof {
            use_type_invariant(&self);
        }
        if self.invalid {
            Err(Error::builder())
        } else {
            Ok(Client { config: Arc::new(Config { headers: self.headers }) })
        }
    }
}

impl Client {
    #[verifier::type_invariant]
    spec fn one_value_per_name(&self) -> bool {
        single_valued(header_entries(self.config.headers)) && header_entries(
            self.config.headers,
        ).dom().finite()
    }

    pub closed spec fn defaults(&self) -> Map<Seq<char>, Seq<Seq<u8>>> {
        header_entries(self.config.headers)
    }

    /// A client with no default headers.
    pub fn new() -> (r: Client)
        ensures
            r.defaults() == no_entries(),
            single_valued(r.defaults()),
    {
        Client { config: Arc::new(Config { headers: header_map_new() }) }
    }

    /// The first default value configured under `name`.
    pub fn default_header(&self, name: &str) -> (r: Option<Vec<u8>>)
        requires
            crate::headers::is_header_name(name@),
        ensures
            match r {
                Some(v) => self.defaults().contains_key(name@) && v@ == self.defaults()[name@][0],
                None => !self.defaults().contains_key(name@),
            },
    {
        let vs = header_values(&self.config.headers, name);
        if vs.len() == 0 {
            None
        } else {
            let v = vs[0].clone();
            proof {
                assert(vs@[0]@ == views_of(vs@)[0]);
                assert(views_of(vs@).len() == vs@.len());
                assert(v@ =~= vs@[0]@);
            }
            Some(v)
        }
    }

    /// Folds the defaults into the request's headers without replacing any
    /// header the request already carries. Returns whether every default
    /// was placed; the request's header map may refuse an insert at its size
    /// limit, and then the merge stops there. The client is only read.
    pub fn merge_headers(&self, req: &mut Request) -> (ok: bool)
        ensures
            header_entries(old(req).headers).dom().len() + self.defaults().dom().len()
                < HEADER_NAME_ROOM ==> ok,
            ok ==> header_entries(final(req).headers) == merged(
                header_entries(old(req).headers),
                self.defaults(),
            ),
            forall|h: Seq<char>|
                #[trigger] header_entries(old(req).headers).contains_key(h) ==> header_entries(
                    final(req).headers,
                ).contains_key(h) && header_entries(final(req).headers)[h] == header_entries(
                    old(req).headers,
                )[h],
            forall|h: Seq<char>|
                #[trigger] header_entries(final(req).headers).contains_key(h) && !header_entries(
                    old(req).headers,
                ).contains_key(h) ==> self.defaults().contains_key(h) && header_entries(
                    final(req).headers,
                )[h] == self.defaults()[h],
            final(req).method == old(req).method,
            final(req).url == old(req).url,
            final(req).body == old(req).body,
            final(req).timeout_ms == old(req).timeout_ms,
    {
        proof {
            use_type_invariant(self);
        }
        let ok = merge_defaults(&mut req.headers, &self.config.headers);
        proof {
            assert forall|h: Seq<char>|
                #[trigger] header_entries(req.headers).contains_key(h) && !header_entries(
                    old(req).headers,
                ).contains_key(h) implies header_entries(req.headers)[h] == self.defaults()[h] by {
                assert(self.defaults().contains_key(h));
                assert(self.defaults()[h] =~= seq![self.defaults()[h][0]]);
            }
        }
        ok
    }

    /// Starts a request to `url`; a malformed URL is an error.
    pub fn request(&self, method: Method, url: &str) -> (r: Result<Request, Error>)
        ensures
            r is Ok <==> parsed_url(url@) is Some,
            r matches Ok(req) ==> parsed_url(url@) == Some(req.url@) && req.method == method
                && header_entries(req.headers) == no_entries() && req.body is None
                && req.timeout_ms is None,
            r matches Err(e) ==> e.kind == Kind::Url,
    {
        match parse_url(url) {
            Some(u) => Ok(Request::new(method, u)),
            None => Err(Error::url_error()),
        }
    }

    pub fn get(&self, url: &str) -> (r: Result<Request, Error>)
        ensures
            r is Ok <==> parsed_url(url@) is Some,
            r matches Ok(req) ==> parsed_url(url@) == Some(req.url@) && req.method == Method::Get
                && header_entries(req.headers) == no_entries(),
            r matches Err(e) ==> e.kind == Kind::Url,
    {
        self.request(Method::Get, url)
    }

    pub fn post(&self, url: &str) -> (r: Result<Request, Error>)
        ensures
            r is Ok <==> parsed_url(url@) is Some,
            r matches Ok(req) ==> parsed_url(url@) == Some(req.url@) && req.method == Method::Post
                && header_entries(req.headers) == no_entries(),
            r matches Err(e) ==> e.kind == Kind::Url,
    {
        self.request(Method::Post, url)
    }

    pub fn put(&self, url: &str) -> (r: Result<Request, Error>)
        ensures
            r is Ok <==> parsed_url(url@) is Some,
            r matches Ok(req) ==> parsed_url(url@) == Some(req.url@) && req.method == Method::Put
                && header_entries(req.headers) == no_entries(),
            r matches Err(e) ==> e.kind == Kind::Url,
    {
        self.request(Method::Put, url)
    }

    pub fn patch(&self, url: &str) -> (r: Result<Request, Error>)
        ensures
            r is Ok <==> parsed_url(url@) is Some,
            r matches Ok(req) ==> parsed_url(url@) == Some(req.url@) && req.method == Method::Patch
                && header_entries(req.headers) == no_entries(),
            r matches Err(e) ==> e.kind == Kind::Url,
    {
        self.request(Method::Patch, url)
    }

    pub fn delete(&self, url: &str) -> (r: Result<Request, Error>)
        ensures
            r is Ok <==> parsed_url(url@) is Some,
            r matches Ok(req) ==> parsed_url(url@) == Some(req.url@) && req.method == Method::Delete
                && header_entries(req.headers) == no_entries(),
            r matches Err(e) ==> e.kind == Kind::Url,
    {
        self.request(Method::Delete, url)
    }

    pub fn head(&self, url: &str) -> (r: Result<Request, Error>)
        ensures
            r is Ok <==> parsed_url(url@) is Some,
            r matches Ok(req) ==> parsed_url(url@) == Some(req.url@) && req.method == Method::Head
                && header_entries(req.headers) == no_entries(),
            r matches Err(e) ==> e.kind == Kind::Url,
    {
        self.request(Method::Head, url)
    }

    pub fn builder() -> (r: ClientBuilder)
        ensures
            r.defaults() == no_entries(),
            single_valued(r.defaults()),
            !r.failed(),
    {
        ClientBuilder::new()
    }
}

impl Clone for Client {
    /// Another handle on the same configuration.
    fn clone(&self) -> (r: Client)
        ensures
            r.defaults() == self.defaults(),
            single_valued(r.defaults()),
    {
        proof {
            use_type_invariant(self);
        }
        Client { config: Arc::clone(&self.config) }
    }
}

impl Default for ClientBuilder {
    fn default() -> (r: ClientBuilder)
        ensures
            r.defaults() == no_entries(),
            single_valued(r.defaults()),
            !r.failed(),
    {
        ClientBuilder::new()
    }
}

impl Default for Client {
    fn default() -> (r: Client)
        ensures
            r.defaults() == no_entries(),
            single_valued(r.defaults()),
    {
        Client::new()
    }
}

} // verus!
