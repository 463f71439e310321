//! Request handling on top of a store: a `POST` with a form holding a valid
//! `url` stores it and answers with the short URL; a `GET` or `HEAD` of a
//! stored key redirects to its value; anything else is not found.
use vstd::prelude::*;

use crate::storage::persisted::lines_view;
use crate::storage::{inserted, key_in_use, lookup, opt_view, KeyValueStore};

verus! {

/// Whether `iron::Url::parse` accepts `url`.
pub uninterp spec fn url_parses(url: Seq<char>) -> bool;

/// Relies on `iron::Url::parse`: whether it accepts a text depends on that
/// text alone.
#[verifier::external_body]
fn is_valid_url(url: &str) -> (r: bool)
    ensures
        r == url_parses(url@),
{
    iron::Url::parse(url).is_ok()
}

/// The request methods that the handler tells apart.
#[derive(Debug, Clone, Copy, PartialEq, Eq, Structural)]
pub enum Method {
    Get,
    Head,
    Post,
    Other,
}

impl Method {
    /// Whether a request with this method may change the store.
    pub fn writes(&self) -> (r: bool)
        ensures
            r == (*self is Post),
    {
        match self {
            Method::Post => true,
            _ => false,
        }
    }
}

/// The statuses that the handler answers with.
#[derive(Debug, Clone, Copy, PartialEq, Eq, Structural)]
pub enum Status {
    Created,
    Found,
    BadRequest,
    NotFound,
    InternalServerError,
}

/// The HTTP code of a status.
pub open spec fn status_code(s: Status) -> u16 {
    match s {
        Status::Created => 201,
        Status::Found => 302,
        Status::BadRequest => 400,
        Status::NotFound => 404,
        Status::InternalServerError => 500,
    }
}

impl Status {
    /// The HTTP code of this status.
    pub fn code(&self) -> (r: u16)
        ensures
            r == status_code(*self),
    {
        match self {
            Status::Created => 201,
            Status::Found => 302,
            Status::BadRequest => 400,
            Status::NotFound => 404,
            Status::InternalServerError => 500,
        }
    }
}

/// Why the `url` of a `POST` could not be taken.
#[derive(Debug, Clone, Copy, PartialEq, Eq, Structural)]
pub enum UrlError {
    /// The body is not a URL encoded form.
    BodyMissing,
    /// The form has no `url` field.
    UrlMissing,
    /// The `url` field does not parse as a URL.
    UrlInvalid,
}

/// The text that a bad request answer carries for `e`.
pub open spec fn error_message(e: UrlError) -> Seq<char> {
    match e {
        UrlError::BodyMissing => "URL encoded body missing"@,
        UrlError::UrlMissing => "Parameter 'url' missing from the URL encoded body"@,
        UrlError::UrlInvalid => "Parameter 'url' is invalid"@,
    }
}

impl UrlError {
    /// The text that a bad request answer carries for this error.
    pub fn message(&self) -> (r: String)
        ensures
            r@ == error_message(*self),
    {
        match self {
            UrlError::BodyMissing => String::from_str("URL encoded body missing"),
            UrlError::UrlMissing => String::from_str("Parameter 'url' missing from the URL encoded body"),
            UrlError::UrlInvalid => String::from_str("Parameter 'url' is invalid"),
        }
    }
}

/// A request as the handler sees it.
pub struct Request {
    pub method: Method,
    /// The segments of the request path, without the leading slash.
    pub path: Vec<String>,
    /// The fields of the URL encoded body in the order they came, or `None`
    /// where the body is not such a form.
    pub form: Option<Vec<(String, String)>>,
}

/// The handler's answer.
pub struct Response {
    pub status: Status,
    /// The `Location` header, for a created short URL or a redirect.
    pub location: Option<String>,
    /// The text of the body, if any.
    pub body: Option<String>,
}

/// The view of a form.
pub open spec fn form_view(form: Option<Vec<(String, String)>>) -> Option<Seq<(Seq<char>, Seq<char>)>> {
    match form {
        Some(pairs) => Some(pairs@.map_values(|p: (String, String)| (p.0@, p.1@))),
        None => None,
    }
}

/// The view of a result that carries a string.
pub open spec fn result_view(r: Result<String, UrlError>) -> Result<Seq<char>, UrlError> {
    match r {
        Ok(s) => Ok(s@),
        Err(e) => Err(e),
    }
}

/// The value of the first field of `pairs` named `name`.
pub open spec fn first_value(pairs: Seq<(Seq<char>, Seq<char>)>, name: Seq<char>) -> Option<Seq<char>> {
    match pairs.map_values(|p: (Seq<char>, Seq<char>)| p.0).index_of_first(name) {
        Some(i) => Some(pairs[i].1),
        None => None,
    }
}

/// The `url` field of a form, before it is checked as a URL.
pub open spec fn form_url(form: Option<Seq<(Seq<char>, Seq<char>)>>) -> Result<Seq<char>, UrlError> {
    match form {
        None => Err(UrlError::BodyMissing),
        Some(pairs) => match first_value(pairs, "url"@) {
            None => Err(UrlError::UrlMissing),
            Some(url) => Ok(url),
        },
    }
}

/// The `url` field of a form, checked as a URL.
pub open spec fn extracted_url(form: Option<Seq<(Seq<char>, Seq<char>)>>) -> Result<Seq<char>, UrlError> {
    match form_url(form) {
        Ok(url) => if url_parses(url) {
            Ok(url)
        } else {
            Err(UrlError::UrlInvalid)
        },
        Err(e) => Err(e),
    }
}

/// The request path: its segments joined by slashes.
pub open spec fn joined_path(segments: Seq<Seq<char>>) -> Seq<char>
    decreases segments.len(),
{
    if segments.len() == 0 {
        Seq::empty()
    } else if segments.len() == 1 {
        segments[0]
    } else {
        joined_path(segments.drop_last()) + seq!['/'] + segments.last()
    }
}

/// The answer to a `POST` whose `url` field came out as `extracted`, on a
/// store that held `before` and holds `after` once it is answered. A valid
/// URL is stored under a fresh key and answered with the short URL, unless
/// the store fails, which is answered as an internal error and is possible
/// only where `store_may_fail`.
pub open spec fn post_outcome(
    prefix: Seq<char>,
    store_may_fail: bool,
    before: Map<Seq<char>, Seq<char>>,
    after: Map<Seq<char>, Seq<char>>,
    extracted: Result<Seq<char>, UrlError>,
    r: Response,
) -> bool {
    match extracted {
        Err(e) => {
            &&& r.status == Status::BadRequest
            &&& opt_view(r.body) == Some(error_message(e))
            &&& r.location is None
            &&& after == before
        },
        Ok(url) => {
            &&& r.body is None
            &&& r.status == Status::Created || r.status == Status::InternalServerError
            &&& r.status == Status::Created ==> {
                &&& r.location is Some
                &&& prefix.len() <= r.location->0@.len()
                &&& r.location->0@.subrange(0, prefix.len() as int) == prefix
                &&& inserted(
                    before,
                    after,
                    r.location->0@.subrange(prefix.len() as int, r.location->0@.len() as int),
                    url,
                )
            }
            &&& r.status == Status::InternalServerError ==> r.location is None && after == before
                && store_may_fail
        },
    }
}

/// The answer to a `GET` or `HEAD` of `key` on a store holding `entries`: a
/// redirect to the stored value, or not found.
pub open spec fn get_outcome(entries: Map<Seq<char>, Seq<char>>, key: Seq<char>, r: Response) -> bool {
    &&& r.body is None
    &&& match lookup(entries, key) {
        Some(value) => r.status == Status::Found && opt_view(r.location) == Some(value),
        None => r.status == Status::NotFound && r.location is None,
    }
}

/// Joins the segments of a request path with slashes.
pub fn join_path(segments: &Vec<String>) -> (r: String)
    ensures
        r@ == joined_path(lines_view(segments@)),
{
    let mut r = String::new();
    let mut i: usize = 0;
    while i < segments.len()
        invariant
            i <= segments.len(),
            r@ == joined_path(lines_view(segments@.subrange(0, i as int))),
        decreases segments.len() - i,
    {
        let ghost pre = lines_view(segments@.subrange(0, i as int));
        let ghost next = lines_view(segments@.subrange(0, i + 1));
        proof {
            assert(next.drop_last() =~= pre);
            assert(next.last() == segments@[i as int]@);
            reveal_strlit("/");
        }
        if i > 0 {
            r.append("/");
        }
        r.append(segments[i].as_str());
        proof {
            if i == 0 {
                assert(r@ =~= next[0]);
            } else {
                assert(r@ =~= joined_path(pre) + seq!['/'] + next.last());
            }
        }
        i = i + 1;
    }
    assert(segments@.subrange(0, segments@.len() as int) =~= segments@);
    r
}

/// The `url` field of a form, before it is checked as a URL.
pub fn find_url_parameter(form: &Option<Vec<(String, String)>>) -> (r: Result<String, UrlError>)
    ensures
        result_view(r) == form_url(form_view(*form)),
{
    match form {
        None => Err(UrlError::BodyMissing),
        Some(pairs) => {
            let name = String::from_str("url");
            let ghost pv = form_view(*form)->0;
            let ghost names = pv.map_values(|p: (Seq<char>, Seq<char>)| p.0);
            assert(pv == pairs@.map_values(|p: (String, String)| (p.0@, p.1@)));
            let mut i: usize = 0;
            while i < pairs.len()
                invariant
                    i <= pairs.len(),
                    name@ == "url"@,
                    pv == pairs@.map_values(|p: (String, String)| (p.0@, p.1@)),
                    form_view(*form) == Some(pv),
                    names == pv.map_values(|p: (Seq<char>, Seq<char>)| p.0),
                    forall|j: int| 0 <= j < i ==> names[j] != "url"@,
                decreases pairs.len() - i,
            {
                if pairs[i].0 == name {
                    proof {
                        assert(names[i as int] == pairs@[i as int].0@);
                        names.index_of_first_ensures("url"@);
                        assert(names.index_of_first("url"@) == Some(i as int));
                    }
                    return Ok(pairs[i].1.clone());
                }
                assert(names[i as int] == pairs@[i as int].0@);
                i = i + 1;
            }
            proof {
                names.index_of_first_ensures("url"@);
            }
            Err(UrlError::UrlMissing)
        },
    }
}

/// The `url` field of a form, checked as a URL.
pub fn extract_url(form: &Option<Vec<(String, String)>>) -> (r: Result<String, UrlError>)
    ensures
        result_view(r) == extracted_url(form_view(*form)),
{
    match find_url_parameter(form) {
        Ok(url) => if is_valid_url(url.as_str()) {
            Ok(url)
        } else {
            Err(UrlError::UrlInvalid)
        },
        Err(e) => Err(e),
    }
}

/// Answers requests against a store; short URLs are `short_url_prefix`
/// followed by a key.
pub struct UrlShortenerHandler<A: KeyValueStore> {
    short_url_prefix: String,
    state: A,
}

impl<A: KeyValueStore> UrlShortenerHandler<A> {
    /// The text that every short URL starts with.
    pub closed spec fn prefix(&self) -> Seq<char> {
        self.short_url_prefix@
    }

    /// Whether the store behind the handler is consistent.
    pub closed spec fn wf(&self) -> bool {
        self.state.wf()
    }

    /// Whether an insert into the store behind the handler can fail: when
    /// some well-formed key is in use, or the store writes to an outside sink.
    pub open spec fn store_may_fail(&self) -> bool {
        key_in_use(self.entries()) || self.writes_out()
    }

    /// Whether the store behind the handler writes to an outside sink.
    pub closed spec fn writes_out(&self) -> bool {
        self.state.writes_out()
    }

    /// The entries of the store behind the handler.
    pub closed spec fn entries(&self) -> Map<Seq<char>, Seq<char>> {
        self.state.entries()
    }

    /// A handler over `state` that hands out short URLs under `short_url_prefix`.
    pub fn new(short_url_prefix: String, state: A) -> (r: Self)
        requires
            state.wf(),
        ensures
            r.wf(),
            r.prefix() == short_url_prefix@,
            r.entries() == state.entries(),
            r.writes_out() == state.writes_out(),
    {
        UrlShortenerHandler { short_url_prefix, state }
    }

    /// Answers a `POST` whose `url` field came out as `extracted`.
    pub fn post_response(&mut self, extracted: Result<String, UrlError>) -> (r: Response)
        requires
            old(self).wf(),
        ensures
            final(self).wf(),
            final(self).prefix() == old(self).prefix(),
            final(self).writes_out() == old(self).writes_out(),
            post_outcome(old(self).prefix(), old(self).store_may_fail(), old(self).entries(), final(self).entries(), result_view(extracted), r),
    {
        match extracted {
            Ok(url) => match self.state.insert(url) {
                Ok(key) => {
                    let mut short_url = self.short_url_prefix.clone();
                    short_url.append(key.as_str());
                    proof {
                        let l = short_url@;
                        let p = self.short_url_prefix@;
                        assert(l.subrange(0, p.len() as int) =~= p);
                        assert(l.subrange(p.len() as int, l.len() as int) =~= key@);
                    }
                    Response { status: Status::Created, location: Some(short_url), body: None }
                },
                Err(_) => Response { status: Status::InternalServerError, location: None, body: None },
            },
            Err(e) => Response { status: Status::BadRequest, location: None, body: Some(e.message()) },
        }
    }

    /// Answers a `POST` with the form `form`.
    pub fn handle_post_request(&mut self, form: &Option<Vec<(String, String)>>) -> (r: Response)
        requires
            old(self).wf(),
        ensures
            final(self).wf(),
            final(self).prefix() == old(self).prefix(),
            final(self).writes_out() == old(self).writes_out(),
            post_outcome(old(self).prefix(), old(self).store_may_fail(), old(self).entries(), final(self).entries(), extracted_url(form_view(*form)), r),
    {
        let extracted = extract_url(form);
        self.post_response(extracted)
    }

    /// Answers a `GET` or `HEAD` of the path made of `path`.
    pub fn handle_get_request(&self, path: &Vec<String>) -> (r: Response)
        requires
            self.wf(),
        ensures
            get_outcome(self.entries(), joined_path(lines_view(path@)), r),
    {
        let key = join_path(path);
        match self.state.get(key.as_str()) {
            Some(url) => Response { status: Status::Found, location: Some(url), body: None },
            None => Response { status: Status::NotFound, location: None, body: None },
        }
    }

    /// Answers a request that cannot change the store.
    pub fn handle_read(&self, req: &Request) -> (r: Response)
        requires
            self.wf(),
            !(req.method is Post),
        ensures
            req.method is Get || req.method is Head ==> get_outcome(
                self.entries(),
                joined_path(lines_view(req.path@)),
                r,
            ),
            req.method is Other ==> r.status == Status::NotFound && r.location is None && r.body is None,
    {
        match req.method {
            Method::Get | Method::Head => self.handle_get_request(&req.path),
            _ => Response { status: Status::NotFound, location: None, body: None },
        }
    }

    /// Answers any request.
    pub fn handle(&mut self, req: &Request) -> (r: Response)
        requires
            old(self).wf(),
        ensures
            final(self).wf(),
            final(self).prefix() == old(self).prefix(),
            final(self).writes_out() == old(self).writes_out(),
            req.method is Post ==> post_outcome(
                old(self).prefix(),
                old(self).store_may_fail(),
                old(self).entries(),
                final(self).entries(),
                extracted_url(form_view(req.form)),
                r,
            ),
            req.method is Get || req.method is Head ==> final(self).entries() == old(self).entries()
                && get_outcome(old(self).entries(), joined_path(lines_view(req.path@)), r),
            req.method is Other ==> final(self).entries() == old(self).entries() && r.status
                == Status::NotFound && r.location is None && r.body is None,
    {
        match req.method {
            Method::Post => self.handle_post_request(&req.form),
            _ => self.handle_read(req),
        }
    }
}

} // verus!
