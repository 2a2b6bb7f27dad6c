//! A request and the builder that assembles it.

use vstd::prelude::*;
use vstd::string::*;

verus! {

/// An HTTP method.
#[derive(Clone, Copy, PartialEq, Eq, Structural, Debug)]
pub enum Method {
    Get,
    Post,
    Put,
    Delete,
}

/// The key pair with which a request is signed.
#[derive(PartialEq, Eq, Debug)]
pub struct Credentials {
    pub api_key: String,
    pub api_secret: String,
}

/// What a key pair says.
pub struct CredentialsView {
    pub api_key: Seq<char>,
    pub api_secret: Seq<char>,
}

impl View for Credentials {
    type V = CredentialsView;

    open spec fn view(&self) -> CredentialsView {
        CredentialsView { api_key: self.api_key@, api_secret: self.api_secret@ }
    }
}

/// What optional credentials say.
pub open spec fn credentials_view(credentials: Option<Credentials>) -> Option<CredentialsView> {
    match credentials {
        Some(c) => Some(c@),
        None => None,
    }
}

/// What a list of owned parameters says: the pairs, in order.
pub open spec fn pairs_view(pairs: Seq<(String, String)>) -> Seq<(Seq<char>, Seq<char>)> {
    pairs.map_values(|p: (String, String)| (p.0@, p.1@))
}

/// What a list of borrowed parameters says: the pairs, in order.
pub open spec fn str_pairs_view(pairs: Seq<(&str, &str)>) -> Seq<(Seq<char>, Seq<char>)> {
    pairs.map_values(|p: (&str, &str)| (p.0@, p.1@))
}

/// A list of query parameters that a caller can hand over: an array, a vector or
/// a slice of key-value pairs.
pub trait QueryPairs<'a>: Sized {
    /// The pairs, in order.
    spec fn pairs(self) -> Seq<(Seq<char>, Seq<char>)>;

    /// The pairs as a vector.
    fn into_pairs(self) -> (pairs: Vec<(&'a str, &'a str)>)
        ensures
            str_pairs_view(pairs@) == self.pairs(),
    ;
}

impl<'a> QueryPairs<'a> for Vec<(&'a str, &'a str)> {
    open spec fn pairs(self) -> Seq<(Seq<char>, Seq<char>)> {
        str_pairs_view(self@)
    }

    fn into_pairs(self) -> (pairs: Vec<(&'a str, &'a str)>) {
        self
    }
}

impl<'a> QueryPairs<'a> for &[(&'a str, &'a str)] {
    open spec fn pairs(self) -> Seq<(Seq<char>, Seq<char>)> {
        str_pairs_view(self@)
    }

    fn into_pairs(self) -> (pairs: Vec<(&'a str, &'a str)>) {
        let mut pairs: Vec<(&'a str, &'a str)> = Vec::new();
        let mut i: usize = 0;
        while i < self.len()
            invariant
                i <= self@.len(),
                pairs@ == self@.take(i as int),
            decreases self@.len() - i,
        {
            pairs.push(self[i]);
            i = i + 1;
            assert(self@.take(i as int) =~= self@.take(i - 1).push(self@[i - 1]));
        }
        assert(self@.take(self@.len() as int) =~= self@);
        pairs
    }
}

impl<'a, const N: usize> QueryPairs<'a> for [(&'a str, &'a str); N] {
    open spec fn pairs(self) -> Seq<(Seq<char>, Seq<char>)> {
        str_pairs_view(self@)
    }

    fn into_pairs(self) -> (pairs: Vec<(&'a str, &'a str)>) {
        self.as_slice().into_pairs()
    }
}

/// The receive window of a request that sets none, in milliseconds.
pub const DEFAULT_RECV_WINDOW: u32 = 5000;

/// What a request says, finished or still under construction.
pub struct RequestView {
    pub method: Method,
    pub path: Seq<char>,
    pub params: Seq<(Seq<char>, Seq<char>)>,
    pub credentials: Option<CredentialsView>,
    pub sign: bool,
    pub body: Seq<char>,
    pub recv_window: u32,
}

impl RequestView {
    /// An unsigned request without parameters, credentials or body.
    pub open spec fn bare(method: Method, path: Seq<char>) -> RequestView {
        RequestView {
            method,
            path,
            params: Seq::empty(),
            credentials: None,
            sign: false,
            body: Seq::empty(),
            recv_window: DEFAULT_RECV_WINDOW,
        }
    }

    /// The request with `params` behind the parameters that it has.
    pub open spec fn with_params(self, params: Seq<(Seq<char>, Seq<char>)>) -> RequestView {
        RequestView { params: self.params + params, ..self }
    }

    /// The request with these credentials.
    pub open spec fn with_credentials(self, credentials: CredentialsView) -> RequestView {
        RequestView { credentials: Some(credentials), ..self }
    }

    /// The request, to be signed.
    pub open spec fn signed(self) -> RequestView {
        RequestView { sign: true, ..self }
    }

    /// The request with this receive window.
    pub open spec fn with_recv_window(self, recv_window: u32) -> RequestView {
        RequestView { recv_window, ..self }
    }

    /// The request with this body.
    pub open spec fn with_body(self, body: Seq<char>) -> RequestView {
        RequestView { body, ..self }
    }
}

/// A finished request.
#[derive(PartialEq, Eq, Debug)]
pub struct Request {
    pub(crate) method: Method,
    pub(crate) path: String,
    pub(crate) params: Vec<(String, String)>,
    pub(crate) credentials: Option<Credentials>,
    pub(crate) sign: bool,
    pub(crate) body: String,
    pub(crate) recv_window: u32,
}

impl View for Request {
    type V = RequestView;

    closed spec fn view(&self) -> RequestView {
        RequestView {
            method: self.method,
            path: self.path@,
            params: pairs_view(self.params@),
            credentials: credentials_view(self.credentials),
            sign: self.sign,
            body: self.body@,
            recv_window: self.recv_window,
        }
    }
}

impl Request {
    /// The HTTP method.
    pub fn method(&self) -> (method: &Method)
        ensures
            *method == self@.method,
    {
        &self.method
    }

    /// The path below the host.
    pub fn path(&self) -> (path: &str)
        ensures
            path@ == self@.path,
    {
        &self.path
    }

    /// The body, empty where none was given.
    pub fn body(&self) -> (body: &str)
        ensures
            body@ == self@.body,
    {
        &self.body
    }

    /// The query parameters, in the order in which they were given.
    pub fn params(&self) -> (params: &[(String, String)])
        ensures
            pairs_view(params@) == self@.params,
    {
        &self.params
    }

    /// The credentials, where some were given.
    pub fn credentials(&self) -> (credentials: &Option<Credentials>)
        ensures
            credentials_view(*credentials) == self@.credentials,
    {
        &self.credentials
    }

    /// Whether the request is to be signed.
    pub fn sign(&self) -> (sign: &bool)
        ensures
            *sign == self@.sign,
    {
        &self.sign
    }

    /// The receive window, in milliseconds.
    pub fn recv_window(&self) -> (recv_window: &u32)
        ensures
            *recv_window == self@.recv_window,
    {
        &self.recv_window
    }
}

/// API HTTP Request
///
/// A low-level request builder for API integration
/// decoupled from any specific underlying HTTP library.
pub struct RequestBuilder {
    method: Method,
    path: String,
    params: Vec<(String, String)>,
    credentials: Option<Credentials>,
    sign: bool,
    body: String,
    recv_window: u32,
}

impl View for RequestBuilder {
    type V = RequestView;

    closed spec fn view(&self) -> RequestView {
        RequestView {
            method: self.method,
            path: self.path@,
            params: pairs_view(self.params@),
            credentials: credentials_view(self.credentials),
            sign: self.sign,
            body: self.body@,
            recv_window: self.recv_window,
        }
    }
}

impl RequestBuilder {
    /// Starts an unsigned request with the default receive window.
    pub fn new(method: Method, path: &str) -> (builder: Self)
        ensures
            builder@ == RequestView::bare(method, path@),
    {
        let builder = Self {
            method,
            path: path.to_owned(),
            params: vec![],
            body: String::new(),
            credentials: None,
            sign: false,
            recv_window: DEFAULT_RECV_WINDOW,
        };
        assert(pairs_view(builder.params@) =~= Seq::empty());
        builder
    }

    /// Append `params` to the request's query string. Parameters may
    /// share the same key, and will result in a query string with one or
    /// more duplicated query parameter keys.
    pub fn params<'a>(self, params: impl QueryPairs<'a>) -> (builder: Self)
        ensures
            builder@ == self@.with_params(params.pairs()),
    {
        self.params_from(params.into_pairs().into_iter())
    }

    /// Appends the pairs of an iterator, as [`RequestBuilder::params`] does those of
    /// a collection.
    pub fn params_from<'a, I: Iterator<Item = (&'a str, &'a str)>>(self, params: I) -> (builder:
        Self)
        requires
            vstd::std_specs::iter::IteratorSpec::obeys_prophetic_iter_laws(&params),
            vstd::std_specs::iter::IteratorSpec::decrease(&params) is Some,
        ensures
            builder@ == self@.with_params(
                str_pairs_view(vstd::std_specs::iter::IteratorSpec::remaining(&params)),
            ),
    {
        let ghost given = vstd::std_specs::iter::IteratorSpec::remaining(&params);
        let mut owned: Vec<(String, String)> = self.params;
        let ghost mut taken: int = 0;
        let mut rest = params;
        assert(str_pairs_view(given.take(0)) =~= Seq::empty());
        assert(pairs_view(owned@) =~= pairs_view(self.params@) + str_pairs_view(given.take(0)));
        loop
            invariant_except_break
                0 <= taken <= given.len(),
                vstd::std_specs::iter::IteratorSpec::obeys_prophetic_iter_laws(&rest),
                vstd::std_specs::iter::IteratorSpec::decrease(&rest) is Some,
                vstd::std_specs::iter::IteratorSpec::remaining(&rest) == given.skip(taken),
                pairs_view(owned@) == pairs_view(self.params@) + str_pairs_view(given.take(taken)),
            ensures
                pairs_view(owned@) == pairs_view(self.params@) + str_pairs_view(given),
            decreases vstd::std_specs::iter::IteratorSpec::decrease(&rest)->0,
        {
            match rest.next() {
                Some((key, value)) => {
                    let ghost before = owned@;
                    owned.push((key.to_owned(), value.to_owned()));
                    proof {
                        assert(given.skip(taken)[0] == given[taken]);
                        assert(given.skip(taken).drop_first() =~= given.skip(taken + 1));
                        assert(given.take(taken + 1) =~= given.take(taken).push(given[taken]));
                        assert(pairs_view(owned@) =~= pairs_view(before).push((key@, value@)));
                        assert(str_pairs_view(given.take(taken + 1)) =~= str_pairs_view(
                            given.take(taken),
                        ).push((key@, value@)));
                        taken = taken + 1;
                    }
                },
                None => {
                    assert(given.take(taken) =~= given);
                    break;
                },
            }
        }
        RequestBuilder { params: owned, ..self }
    }

    /// Sets the credentials, in place of any given before.
    pub fn credentials(self, credentials: Credentials) -> (builder: Self)
        ensures
            builder@ == self@.with_credentials(credentials@),
    {
        RequestBuilder { credentials: Some(credentials), ..self }
    }

    /// Has the request signed.
    pub fn sign(self) -> (builder: Self)
        ensures
            builder@ == self@.signed(),
    {
        RequestBuilder { sign: true, ..self }
    }

    /// Sets the receive window, in place of any given before.
    pub fn recv_window(self, recv_window: u32) -> (builder: Self)
        ensures
            builder@ == self@.with_recv_window(recv_window),
    {
        RequestBuilder { recv_window, ..self }
    }

    /// Sets the body, in place of any given before.
    pub fn body(self, body: &str) -> (builder: Self)
        ensures
            builder@ == self@.with_body(body@),
    {
        RequestBuilder { body: body.to_string(), ..self }
    }
}

impl From<RequestBuilder> for Request {
    fn from(builder: RequestBuilder) -> (request: Request)
        ensures
            request@ == builder@,
    {
        Request {
            method: builder.method,
            path: builder.path,
            params: builder.params,
            credentials: builder.credentials,
            sign: builder.sign,
            body: builder.body,
            recv_window: builder.recv_window,
        }
    }
}

impl vstd::std_specs::convert::FromSpecImpl<RequestBuilder> for Request {
    open spec fn obeys_from_spec() -> bool {
        true
    }

    closed spec fn from_spec(builder: RequestBuilder) -> Request {
        Request {
            method: builder.method,
            path: builder.path,
            params: builder.params,
            credentials: builder.credentials,
            sign: builder.sign,
            body: builder.body,
            recv_window: builder.recv_window,
        }
    }
}

/// Parameters given in two calls are those given in one.
pub proof fn law_parameters_accumulate(
    request: RequestView,
    first: Seq<(Seq<char>, Seq<char>)>,
    second: Seq<(Seq<char>, Seq<char>)>,
)
    ensures
        request.with_params(first).with_params(second) == request.with_params(first + second),
{
    assert(request.params + first + second =~= request.params + (first + second));
}

/// Every parameter that is given is kept, in its place, whether or not its key was
/// given before.
pub proof fn law_every_parameter_is_kept(
    request: RequestView,
    params: Seq<(Seq<char>, Seq<char>)>,
    i: int,
)
    requires
        0 <= i < params.len(),
    ensures
        request.with_params(params).params[request.params.len() + i] == params[i],
        request.with_params(params).params.len() == request.params.len() + params.len(),
{
}

/// Of two values given for the same thing the later one counts.
pub proof fn law_the_later_value_counts(
    request: RequestView,
    credentials: (CredentialsView, CredentialsView),
    recv_window: (u32, u32),
    body: (Seq<char>, Seq<char>),
)
    ensures
        request.with_credentials(credentials.0).with_credentials(credentials.1)
            == request.with_credentials(credentials.1),
        request.with_recv_window(recv_window.0).with_recv_window(recv_window.1)
            == request.with_recv_window(recv_window.1),
        request.with_body(body.0).with_body(body.1) == request.with_body(body.1),
        request.signed().signed() == request.signed(),
{
}

/// Different things can be given in any order.
pub proof fn law_the_order_of_different_calls_is_free(
    request: RequestView,
    params: Seq<(Seq<char>, Seq<char>)>,
    credentials: CredentialsView,
    recv_window: u32,
    body: Seq<char>,
)
    ensures
        request.with_params(params).with_credentials(credentials) == request.with_credentials(
            credentials,
        ).with_params(params),
        request.with_params(params).signed() == request.signed().with_params(params),
        request.with_params(params).with_recv_window(recv_window) == request.with_recv_window(
            recv_window,
        ).with_params(params),
        request.with_params(params).with_body(body) == request.with_body(body).with_params(params),
        request.with_credentials(credentials).signed() == request.signed().with_credentials(
            credentials,
        ),
        request.with_credentials(credentials).with_recv_window(recv_window)
            == request.with_recv_window(recv_window).with_credentials(credentials),
        request.with_credentials(credentials).with_body(body) == request.with_body(
            body,
        ).with_credentials(credentials),
        request.signed().with_recv_window(recv_window) == request.with_recv_window(
            recv_window,
        ).signed(),
        request.signed().with_body(body) == request.with_body(body).signed(),
        request.with_recv_window(recv_window).with_body(body) == request.with_body(
            body,
        ).with_recv_window(recv_window),
{
}

/// A key pair is seen as its two keys, each in its place.
pub proof fn law_keys_are_seen_in_their_places(credentials: Credentials)
    ensures
        credentials@.api_key == credentials.api_key@,
        credentials@.api_secret == credentials.api_secret@,
        credentials_view(Some(credentials)) == Some(credentials@),
        credentials_view(None) is None,
{
}

/// Parameters are seen one by one, in order, the key before the value.
pub proof fn law_parameters_are_seen_in_order<'a>(
    owned: Seq<(String, String)>,
    borrowed: Seq<(&'a str, &'a str)>,
)
    ensures
        pairs_view(owned).len() == owned.len(),
        str_pairs_view(borrowed).len() == borrowed.len(),
        forall|i: int|
            0 <= i < owned.len() ==> (#[trigger] pairs_view(owned)[i]).0 == owned[i].0@
                && pairs_view(owned)[i].1 == owned[i].1@,
        forall|i: int|
            0 <= i < borrowed.len() ==> (#[trigger] str_pairs_view(borrowed)[i]).0 == borrowed[i].0@
                && str_pairs_view(borrowed)[i].1 == borrowed[i].1@,
{
}

/// The pairs of a vector, a slice and an array are those that it holds, in order,
/// the key before the value.
pub proof fn law_collections_give_their_pairs<'a, const N: usize>(
    vector: Vec<(&'a str, &'a str)>,
    slice: &[(&'a str, &'a str)],
    array: [(&'a str, &'a str); N],
)
    ensures
        vector.pairs().len() == vector@.len(),
        slice.pairs().len() == slice@.len(),
        array.pairs().len() == array@.len(),
        forall|i: int|
            0 <= i < vector@.len() ==> #[trigger] vector.pairs()[i] == (
                vector@[i].0@,
                vector@[i].1@,
            ),
        forall|i: int|
            0 <= i < slice@.len() ==> #[trigger] slice.pairs()[i] == (slice@[i].0@, slice@[i].1@),
        forall|i: int|
            0 <= i < array@.len() ==> #[trigger] array.pairs()[i] == (array@[i].0@, array@[i].1@),
{
}

/// A request starts with its method and path, a receive window of five seconds,
/// and nothing else.
pub proof fn law_a_request_starts_bare(method: Method, path: Seq<char>)
    ensures
        RequestView::bare(method, path).method == method,
        RequestView::bare(method, path).path == path,
        RequestView::bare(method, path).params.len() == 0,
        RequestView::bare(method, path).credentials is None,
        !RequestView::bare(method, path).sign,
        RequestView::bare(method, path).body.len() == 0,
        RequestView::bare(method, path).recv_window == 5000,
{
}

/// Giving parameters adds them behind those that are there, and changes nothing
/// else.
pub proof fn law_giving_parameters_changes_parameters_alone(
    request: RequestView,
    params: Seq<(Seq<char>, Seq<char>)>,
)
    ensures
        request.with_params(params).method == request.method,
        request.with_params(params).path == request.path,
        request.with_params(params).credentials == request.credentials,
        request.with_params(params).sign == request.sign,
        request.with_params(params).body == request.body,
        request.with_params(params).recv_window == request.recv_window,
        request.with_params(params).params.len() == request.params.len() + params.len(),
        forall|i: int|
            0 <= i < request.params.len() ==> #[trigger] request.with_params(params).params[i]
                == request.params[i],
        forall|i: int|
            0 <= i < params.len() ==> request.with_params(params).params[request.params.len() + i]
                == #[trigger] params[i],
{
}

/// Giving credentials sets them, and changes nothing else.
pub proof fn law_giving_credentials_changes_credentials_alone(
    request: RequestView,
    credentials: CredentialsView,
)
    ensures
        request.with_credentials(credentials).method == request.method,
        request.with_credentials(credentials).path == request.path,
        request.with_credentials(credentials).params == request.params,
        request.with_credentials(credentials).sign == request.sign,
        request.with_credentials(credentials).body == request.body,
        request.with_credentials(credentials).recv_window == request.recv_window,
        request.with_credentials(credentials).credentials matches Some(kept) && kept.api_key
            == credentials.api_key && kept.api_secret == credentials.api_secret,
{
}

/// Asking for a signature has the request signed, and changes nothing else.
pub proof fn law_signing_changes_the_signature_alone(request: RequestView)
    ensures
        request.signed().method == request.method,
        request.signed().path == request.path,
        request.signed().params == request.params,
        request.signed().credentials == request.credentials,
        request.signed().body == request.body,
        request.signed().recv_window == request.recv_window,
        request.signed().sign,
{
}

/// Giving a receive window sets it, whatever it is, and changes nothing else.
pub proof fn law_giving_a_window_changes_the_window_alone(request: RequestView, recv_window: u32)
    ensures
        request.with_recv_window(recv_window).method == request.method,
        request.with_recv_window(recv_window).path == request.path,
        request.with_recv_window(recv_window).params == request.params,
        request.with_recv_window(recv_window).credentials == request.credentials,
        request.with_recv_window(recv_window).sign == request.sign,
        request.with_recv_window(recv_window).body == request.body,
        request.with_recv_window(recv_window).recv_window == recv_window,
{
}

/// Giving a body sets it, and changes nothing else.
pub proof fn law_giving_a_body_changes_the_body_alone(request: RequestView, body: Seq<char>)
    ensures
        request.with_body(body).method == request.method,
        request.with_body(body).path == request.path,
        request.with_body(body).params == request.params,
        request.with_body(body).credentials == request.credentials,
        request.with_body(body).sign == request.sign,
        request.with_body(body).recv_window == request.recv_window,
        request.with_body(body).body == body,
{
}

/// A call on a builder.
pub enum BuilderCall {
    Params { params: Seq<(Seq<char>, Seq<char>)> },
    Credentials { credentials: CredentialsView },
    Sign,
    RecvWindow { recv_window: u32 },
    Body { body: Seq<char> },
}

impl RequestView {
    /// The request after a call.
    pub open spec fn after_call(self, call: BuilderCall) -> RequestView {
        match call {
            BuilderCall::Params { params } => self.with_params(params),
            BuilderCall::Credentials { credentials } => self.with_credentials(credentials),
            BuilderCall::Sign => self.signed(),
            BuilderCall::RecvWindow { recv_window } => self.with_recv_window(recv_window),
            BuilderCall::Body { body } => self.with_body(body),
        }
    }
}

/// The request after a run of calls.
pub open spec fn built(start: RequestView, calls: Seq<BuilderCall>) -> RequestView
    decreases calls.len(),
{
    if calls.len() == 0 {
        start
    } else {
        built(start, calls.drop_last()).after_call(calls.last())
    }
}

/// All parameters that a run of calls gives, in order.
pub open spec fn given_params(calls: Seq<BuilderCall>) -> Seq<(Seq<char>, Seq<char>)>
    decreases calls.len(),
{
    if calls.len() == 0 {
        Seq::empty()
    } else {
        match calls.last() {
            BuilderCall::Params { params } => given_params(calls.drop_last()) + params,
            _ => given_params(calls.drop_last()),
        }
    }
}

/// Whatever calls are made on a builder, and in whatever order, the request has the
/// method and path that it was started with, and the parameters that were given, in
/// order; it is signed exactly where that was asked for.
pub proof fn law_request_keeps_its_method_and_path(
    method: Method,
    path: Seq<char>,
    calls: Seq<BuilderCall>,
)
    ensures
        built(RequestView::bare(method, path), calls).method == method,
        built(RequestView::bare(method, path), calls).path == path,
        built(RequestView::bare(method, path), calls).params == given_params(calls),
        built(RequestView::bare(method, path), calls).sign <==> exists|i: int|
            0 <= i < calls.len() && #[trigger] calls[i] is Sign,
    decreases calls.len(),
{
    if calls.len() > 0 {
        let rest = calls.drop_last();
        law_request_keeps_its_method_and_path(method, path, rest);
        if built(RequestView::bare(method, path), rest).sign {
            let i = choose|i: int| 0 <= i < rest.len() && #[trigger] rest[i] is Sign;
            assert(calls[i] is Sign);
        }
        if calls.last() is Sign {
            assert(calls[calls.len() - 1] is Sign);
        }
        if exists|i: int| 0 <= i < calls.len() && #[trigger] calls[i] is Sign {
            let i = choose|i: int| 0 <= i < calls.len() && #[trigger] calls[i] is Sign;
            if i < rest.len() {
                assert(rest[i] is Sign);
            }
        }
    }
}

/// Calls can be made in two runs instead of one.
pub proof fn law_calls_can_be_made_in_two_runs(
    start: RequestView,
    first: Seq<BuilderCall>,
    second: Seq<BuilderCall>,
)
    ensures
        built(start, first + second) == built(built(start, first), second),
    decreases second.len(),
{
    if second.len() == 0 {
        assert(first + second =~= first);
    } else {
        law_calls_can_be_made_in_two_runs(start, first, second.drop_last());
        assert((first + second).drop_last() =~= first + second.drop_last());
    }
}

/// What was given last stays as it is, whatever other calls follow, and in whatever
/// order.
pub proof fn law_what_was_given_last_counts(
    start: RequestView,
    credentials: CredentialsView,
    recv_window: u32,
    body: Seq<char>,
    calls: Seq<BuilderCall>,
)
    ensures
        (forall|i: int| 0 <= i < calls.len() ==> !(#[trigger] calls[i] is Credentials)) ==> {
            &&& built(start.with_credentials(credentials), calls).credentials == Some(credentials)
            &&& built(start, calls).credentials == start.credentials
        },
        (forall|i: int| 0 <= i < calls.len() ==> !(#[trigger] calls[i] is RecvWindow)) ==> {
            &&& built(start.with_recv_window(recv_window), calls).recv_window == recv_window
            &&& built(start, calls).recv_window == start.recv_window
        },
        (forall|i: int| 0 <= i < calls.len() ==> !(#[trigger] calls[i] is Body)) ==> {
            &&& built(start.with_body(body), calls).body == body
            &&& built(start, calls).body == start.body
        },
{
    lemma_untouched_values_stay(start, calls);
    lemma_untouched_values_stay(start.with_credentials(credentials), calls);
    lemma_untouched_values_stay(start.with_recv_window(recv_window), calls);
    lemma_untouched_values_stay(start.with_body(body), calls);
}

proof fn lemma_untouched_values_stay(start: RequestView, calls: Seq<BuilderCall>)
    ensures
        (forall|i: int| 0 <= i < calls.len() ==> !(#[trigger] calls[i] is Credentials)) ==> built(
            start,
            calls,
        ).credentials == start.credentials,
        (forall|i: int| 0 <= i < calls.len() ==> !(#[trigger] calls[i] is RecvWindow)) ==> built(
            start,
            calls,
        ).recv_window == start.recv_window,
        (forall|i: int| 0 <= i < calls.len() ==> !(#[trigger] calls[i] is Body)) ==> built(
            start,
            calls,
        ).body == start.body,
    decreases calls.len(),
{
    if calls.len() > 0 {
        let rest = calls.drop_last();
        lemma_untouched_values_stay(start, rest);
        assert(forall|i: int| 0 <= i < rest.len() ==> rest[i] == calls[i]);
        assert(calls[calls.len() - 1] == calls.last());
    }
}

} // verus!
