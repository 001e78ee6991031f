//! The request-routing state machine: ties token issuance, validation,
//! session promotion, and logout together.
//!
//! The router itself performs no I/O. For each inbound request the caller
//! first asks `route_request` which of the behaviors applies; the answer
//! either carries the finished response or names the one collaborator call
//! the caller must make (resolve the cookie's session, look a user up by
//! email, serve a static file) before handing the resulting plain values
//! to the matching handler. Every handler pins its response down exactly,
//! so what the gateway answers is decided — and proved — here.

use vstd::prelude::*;
use vstd::string::StringExecFns;
use vstd::utf8::encode_utf8;
use crate::mail::{MailgunConfig, MailRequest, mail_encodes, mailgun_request, base64_of};
use crate::models::{Session, User};
use crate::store::{
    StoredToken, TokenStore, TOKEN_TTL_SECONDS, consume_model, consume_result, issue_model,
};
use crate::urlenc::{form_pairs, get_query_map, lookup_pair, pairs_view, query_param};
use crate::urlenc::{decode_login_email, email_values, raw_pairs};
use crate::utils::{CREDENTIAL_LEN, all_alnum, rand_string, render_spec, str_eq};
use vstd::utf8::{decode_utf8, valid_utf8};

verus! {

/// The request methods the gateway distinguishes.
pub enum Method {
    Get,
    Post,
    Other,
}

/// The gateway's configuration, as plain values.
pub struct RouterConfig {
    pub cookie_name: String,
    pub authenticated_path: String,
    pub logout_path: String,
    pub validation_path: String,
    pub authenticate_path: String,
    pub base_url: String,
    pub limit_except_request_method: bool,
}

/// The mathematical value of a `RouterConfig`.
pub ghost struct RouterConfigView {
    pub cookie_name: Seq<char>,
    pub authenticated_path: Seq<char>,
    pub logout_path: Seq<char>,
    pub validation_path: Seq<char>,
    pub authenticate_path: Seq<char>,
    pub base_url: Seq<char>,
    pub limit_except_request_method: bool,
}

impl View for RouterConfig {
    type V = RouterConfigView;

    open spec fn view(&self) -> RouterConfigView {
        RouterConfigView {
            cookie_name: self.cookie_name@,
            authenticated_path: self.authenticated_path@,
            logout_path: self.logout_path@,
            validation_path: self.validation_path@,
            authenticate_path: self.authenticate_path@,
            base_url: self.base_url@,
            limit_except_request_method: self.limit_except_request_method,
        }
    }
}

/// A response, reduced to what the gateway decides: status and headers.
/// Every body the gateway sends itself is empty.
pub struct Response {
    pub status: u16,
    pub headers: Vec<(String, String)>,
}

/// The mathematical value of a `Response`.
pub ghost struct ResponseView {
    pub status: int,
    pub headers: Seq<(Seq<char>, Seq<char>)>,
}

impl View for Response {
    type V = ResponseView;

    open spec fn view(&self) -> ResponseView {
        ResponseView { status: self.status as int, headers: pairs_view(self.headers@) }
    }
}

/// A response with the given status and no headers.
pub open spec fn empty_response(status: int) -> ResponseView {
    ResponseView { status, headers: Seq::<(Seq<char>, Seq<char>)>::empty() }
}

fn empty_resp(status: u16) -> (r: Response)
    ensures
        r@ == empty_response(status as int),
{
    let r = Response { status, headers: Vec::new() };
    proof {
        assert(r@.headers =~= empty_response(status as int).headers);
    }
    r
}

/// The five behaviors, plus the rejection of everything else.
pub enum Route {
    Check,
    Logout,
    Validate,
    Authenticate,
    StaticFile,
    NotAllowed,
}

/// Which behavior a method and path select: the four configured routes in
/// order, any other GET delegates to static serving, anything else is
/// refused.
pub open spec fn route_of(m: Method, path: Seq<char>, c: RouterConfigView) -> Route {
    if m is Get && path == c.authenticated_path {
        Route::Check
    } else if m is Get && path == c.logout_path {
        Route::Logout
    } else if m is Get && path == c.validation_path {
        Route::Validate
    } else if m is Post && path == c.authenticate_path {
        Route::Authenticate
    } else if m is Get {
        Route::StaticFile
    } else {
        Route::NotAllowed
    }
}

/// Decides the route of a request.
pub fn classify(method: &Method, path: &str, config: &RouterConfig) -> (r: Route)
    ensures
        r == route_of(*method, path@, config@),
{
    match method {
        Method::Get => {
            if str_eq(path, config.authenticated_path.as_str()) {
                Route::Check
            } else if str_eq(path, config.logout_path.as_str()) {
                Route::Logout
            } else if str_eq(path, config.validation_path.as_str()) {
                Route::Validate
            } else {
                Route::StaticFile
            }
        },
        Method::Post => {
            if str_eq(path, config.authenticate_path.as_str()) {
                Route::Authenticate
            } else {
                Route::NotAllowed
            }
        },
        Method::Other => Route::NotAllowed,
    }
}

/// The views of a vector of strings.
pub open spec fn strs_view(s: Seq<String>) -> Seq<Seq<char>> {
    s.map_values(|x: String| x@)
}

/// The view of an optional string.
pub open spec fn opt_view(o: Option<String>) -> Option<Seq<char>> {
    match o {
        Some(s) => Some(s@),
        None => None,
    }
}

/// The operator-enabled method bypass: it applies when it is enabled and
/// the request's self-reported method appears among the exempted ones.
pub open spec fn whitelisted_spec(
    enabled: bool,
    limit_except: Seq<Seq<char>>,
    request_method: Option<Seq<char>>,
) -> bool {
    enabled && match request_method {
        Some(m) => exists|i: int| 0 <= i < limit_except.len() && limit_except[i] == m,
        None => false,
    }
}

/// Decides the method bypass from the `x-limit-except` header values and
/// the `x-request-method` header.
pub fn is_whitelisted(enabled: bool, limit_except: &Vec<String>, request_method: &Option<String>) -> (r:
    bool)
    ensures
        r == whitelisted_spec(enabled, strs_view(limit_except@), opt_view(*request_method)),
{
    if !enabled {
        return false;
    }
    match request_method {
        None => false,
        Some(m) => {
            let mut i: usize = 0;
            while i < limit_except.len()
                invariant
                    i <= limit_except@.len(),
                    enabled,
                    opt_view(*request_method) == Some(m@),
                    forall|j: int| 0 <= j < i ==> strs_view(limit_except@)[j] != m@,
                decreases limit_except@.len() - i,
            {
                if str_eq(limit_except[i].as_str(), m.as_str()) {
                    proof {
                        assert(strs_view(limit_except@)[i as int] == m@);
                        assert(exists|j: int|
                            0 <= j < strs_view(limit_except@).len() && strs_view(limit_except@)[j]
                                == m@) by {
                            assert(0 <= (i as int) < strs_view(limit_except@).len() && strs_view(
                                limit_except@,
                            )[i as int] == m@);
                        }
                    }
                    return true;
                }
                i = i + 1;
            }
            false
        },
    }
}

/// What `route_request` tells the caller to do next.
pub enum RouteStep {
    /// The response is decided; send it.
    Reply(Response),
    /// Resolve the request's cookie to a session, then call `handle_check`.
    CheckSession,
    /// Resolve the request's cookie to a session, then call `handle_logout`.
    LogoutSession,
    /// Call `handle_validate` with the token store and the query string.
    Validate,
    /// Decode the body with `begin_authenticate`.
    Authenticate,
    /// Delegate to the static file collaborator.
    ServeStatic,
}

/// The first routing decision for a request: a whitelisted request is
/// admitted at once, an unmatched method/path pair is refused with 405,
/// and each of the five behaviors is named for the caller to carry out.
pub fn route_request(method: &Method, path: &str, whitelisted: bool, config: &RouterConfig) -> (r:
    RouteStep)
    ensures
        whitelisted ==> (r matches RouteStep::Reply(resp) && resp@ == empty_response(200)),
        !whitelisted ==> match route_of(*method, path@, config@) {
            Route::Check => r is CheckSession,
            Route::Logout => r is LogoutSession,
            Route::Validate => r is Validate,
            Route::Authenticate => r is Authenticate,
            Route::StaticFile => r is ServeStatic,
            Route::NotAllowed => r matches RouteStep::Reply(resp) && resp@ == empty_response(405),
        },
{
    if whitelisted {
        return RouteStep::Reply(empty_resp(200));
    }
    match classify(method, path, config) {
        Route::Check => RouteStep::CheckSession,
        Route::Logout => RouteStep::LogoutSession,
        Route::Validate => RouteStep::Validate,
        Route::Authenticate => RouteStep::Authenticate,
        Route::StaticFile => RouteStep::ServeStatic,
        Route::NotAllowed => RouteStep::Reply(empty_resp(405)),
    }
}

/// The session-check response: identity headers for a valid session, 401
/// otherwise. No side effects.
pub fn handle_check(session_user: &Option<User>) -> (r: Response)
    ensures
        match session_user {
            Some(u) => r@ == (ResponseView {
                status: 200,
                headers: seq![("x-identity"@, u@.name), ("x-user"@, u@.email)],
            }),
            None => r@ == empty_response(401),
        },
{
    match session_user {
        Some(u) => {
            let mut headers: Vec<(String, String)> = Vec::new();
            headers.push((String::from_str("x-identity"), u.name.clone()));
            headers.push((String::from_str("x-user"), u.email.clone()));
            let r = Response { status: 200, headers };
            proof {
                assert(r@.headers =~= seq![("x-identity"@, u@.name), ("x-user"@, u@.email)]);
            }
            r
        },
        None => empty_resp(401),
    }
}

/// The logout decision: delete exactly the presented session, if one was
/// resolved, and answer 200 either way — logout is idempotent.
pub fn handle_logout(session: Option<Session>) -> (r: (Option<Session>, Response))
    ensures
        r.0 == session,
        r.1@ == empty_response(200),
{
    (session, empty_resp(200))
}

/// The `Set-Cookie` value that hands the client its session token.
pub open spec fn set_cookie_value(name: Seq<char>, token: Seq<char>) -> Seq<char> {
    name + "="@ + token + "; Path=/; Max-Age=31536000"@
}

/// The redirect target a validated request is sent to: the supplied
/// `origin`, or `/` when none was supplied.
pub open spec fn origin_or_default(pairs: Seq<(Seq<char>, Seq<char>)>) -> Seq<char> {
    match lookup_pair(pairs, "origin"@) {
        Some(o) => o,
        None => "/"@,
    }
}

/// Whether validating against store `m` with this query at instant `now`
/// succeeds: the query names a token that is present and unexpired.
pub open spec fn validate_succeeds(
    m: Map<Seq<char>, StoredToken>,
    query: Seq<char>,
    now: u64,
) -> bool {
    match lookup_pair(form_pairs(encode_utf8(query)), "token"@) {
        Some(t) => consume_result(m, t, now) is Some,
        None => false,
    }
}

/// The store after a validation attempt: the named token is consumed —
/// gone whether or not the attempt succeeded — and a query naming no
/// token leaves the store alone.
pub open spec fn store_after_validate(
    m: Map<Seq<char>, StoredToken>,
    query: Seq<char>,
    now: u64,
) -> Map<Seq<char>, StoredToken> {
    match lookup_pair(form_pairs(encode_utf8(query)), "token"@) {
        Some(t) => consume_model(m, t, now),
        None => m,
    }
}

/// The outcome of a validation attempt: on success, the resolved user and
/// the fresh session token the caller must persist, beside the redirect
/// response that sets the cookie.
pub struct ValidateOutcome {
    pub session: Option<(User, String)>,
    pub response: Response,
}

/// The validate behavior: read `token` and optional `origin` from the
/// query string, consume the token, and either promote it to a session —
/// 307 to the origin, with the new session token in a `Set-Cookie` — or
/// answer 400 for an absent, expired, already-consumed, or missing token.
pub fn handle_validate(store: &mut TokenStore, now: u64, query: &str, cookie_name: &str) -> (r:
    ValidateOutcome)
    requires
        old(store).well_formed(),
    ensures
        final(store).well_formed(),
        final(store)@ == store_after_validate(old(store)@, query@, now),
        match r.session {
            Some((u, st)) => validate_succeeds(old(store)@, query@, now) && ({
                let pairs = form_pairs(encode_utf8(query@));
                match lookup_pair(pairs, "token"@) {
                    Some(tok) => {
                        &&& Some(u@) == consume_result(old(store)@, tok, now)
                        &&& st@.len() == CREDENTIAL_LEN
                        &&& all_alnum(st@)
                        &&& r.response@.status == 307
                        &&& r.response@.headers == seq![
                            ("Set-Cookie"@, set_cookie_value(cookie_name@, st@)),
                            ("location"@, origin_or_default(pairs)),
                        ]
                    },
                    None => false,
                }
            }),
            None => !validate_succeeds(old(store)@, query@, now) && r.response@ == empty_response(
                400,
            ),
        },
{
    let pairs = get_query_map(query);
    match query_param(&pairs, "token") {
        Some(t) => {
            match store.consume(t.as_str(), now) {
                Some(user) => {
                    let cookie = rand_string();
                    let mut sc = String::from_str(cookie_name);
                    sc.append("=");
                    sc.append(cookie.as_str());
                    sc.append("; Path=/; Max-Age=31536000");
                    let loc = match query_param(&pairs, "origin") {
                        Some(o) => o,
                        None => String::from_str("/"),
                    };
                    let mut headers: Vec<(String, String)> = Vec::new();
                    headers.push((String::from_str("Set-Cookie"), sc));
                    headers.push((String::from_str("location"), loc));
                    let response = Response { status: 307, headers };
                    proof {
                        assert(response@.headers =~= seq![
                            (
                                "Set-Cookie"@,
                                set_cookie_value(cookie_name@, cookie@),
                            ),
                            ("location"@, origin_or_default(form_pairs(encode_utf8(query@)))),
                        ]);
                    }
                    ValidateOutcome { session: Some((user, cookie)), response }
                },
                None => ValidateOutcome { session: None, response: empty_resp(400) },
            }
        },
        None => ValidateOutcome { session: None, response: empty_resp(400) },
    }
}

/// A token consumed by one validation is gone: whatever the store held
/// before, a second validation whose query names the same token cannot
/// succeed.
pub proof fn lemma_validate_single_use(
    m: Map<Seq<char>, StoredToken>,
    query1: Seq<char>,
    query2: Seq<char>,
    now1: u64,
    now2: u64,
)
    requires
        lookup_pair(form_pairs(encode_utf8(query1)), "token"@) is Some,
        lookup_pair(form_pairs(encode_utf8(query2)), "token"@) == lookup_pair(
            form_pairs(encode_utf8(query1)),
            "token"@,
        ),
    ensures
        !validate_succeeds(store_after_validate(m, query1, now1), query2, now2),
{
}

/// The decision after decoding an authenticate body: refuse it, or look
/// the decoded email address up.
pub enum AuthStep {
    /// The body did not decode: answer 400.
    BadRequest(Response),
    /// Ask the persistence collaborator for the user with this address,
    /// then call `authenticate`.
    Lookup(String),
}

/// Decodes an authenticate body. A request that fails to decode is a bad
/// request; everything after that point answers 200, whether or not the
/// address is on file.
pub fn begin_authenticate(body: &[u8]) -> (r: AuthStep)
    ensures
        ({
            let vs = email_values(raw_pairs(body@));
            match r {
                AuthStep::Lookup(e) => vs.len() == 1 && valid_utf8(vs[0]) && e@ == decode_utf8(
                    vs[0],
                ),
                AuthStep::BadRequest(resp) => resp@ == empty_response(400) && !(vs.len() == 1
                    && valid_utf8(vs[0])),
            }
        }),
{
    match decode_login_email(body) {
        Ok(email) => AuthStep::Lookup(email),
        Err(_) => AuthStep::BadRequest(empty_resp(400)),
    }
}

/// The magic link a mail carries: the validation endpoint with the token
/// and the caller-supplied redirect target in its query string.
pub open spec fn magic_link(
    base_url: Seq<char>,
    validation_path: Seq<char>,
    token: Seq<char>,
    origin: Seq<char>,
) -> Seq<char> {
    base_url + validation_path + "?token="@ + token + "&origin="@ + origin
}

/// The outcome of an authenticate request: the response is always 200;
/// when the address was on file, the mail to dispatch and the token that
/// was issued (embedded in the mail's magic link).
pub struct AuthOutcome {
    pub mail: Option<MailRequest>,
    pub token: Option<String>,
    pub response: Response,
}

/// The authenticate behavior, after the user lookup: for an address on
/// file, issue a fresh token with the 15-minute deadline, store it, and
/// build the mail request carrying the magic link; for an unknown address
/// do nothing at all. The response is 200 in both cases — whether the
/// address exists is never observable from the response.
pub fn authenticate(
    store: &mut TokenStore,
    user: Option<User>,
    origin: &str,
    now: u64,
    config: &MailgunConfig,
    base_url: &str,
    validation_path: &str,
) -> (r: AuthOutcome)
    requires
        old(store).well_formed(),
        now + TOKEN_TTL_SECONDS <= u64::MAX,
    ensures
        final(store).well_formed(),
        r.response@ == empty_response(200),
        match user {
            None => r.mail is None && r.token is None && final(store)@ == old(store)@,
            Some(u) => r.token matches Some(t) && r.mail matches Some(m) && ({
                let link = magic_link(base_url@, validation_path@, t@, origin@);
                &&& t@.len() == CREDENTIAL_LEN
                &&& all_alnum(t@)
                &&& final(store)@ == issue_model(
                    old(store)@,
                    t@,
                    u@,
                    (now + TOKEN_TTL_SECONDS) as u64,
                )
                &&& m.url@ == config.url@
                &&& m.authorization@ == "Basic "@ + base64_of(
                    encode_utf8("api:"@ + config.api_key@),
                )
                &&& mail_encodes(
                    m.content_type@,
                    m.body@,
                    config.from@,
                    u@.email,
                    config.subject@,
                    render_spec(config.text_template@, link),
                    render_spec(config.html_template@, link),
                )
            }),
        },
{
    match user {
        Some(u) => {
            let token = rand_string();
            let mut link = String::from_str(base_url);
            link.append(validation_path);
            link.append("?token=");
            link.append(token.as_str());
            link.append("&origin=");
            link.append(origin);
            let mail = mailgun_request(u.email.as_str(), config, link.as_str());
            let expires_at = now + TOKEN_TTL_SECONDS;
            store.issue(token.clone(), u, expires_at);
            AuthOutcome {
                mail: Some(mail),
                token: Some(token),
                response: empty_resp(200),
            }
        },
        None => AuthOutcome { mail: None, token: None, response: empty_resp(200) },
    }
}

} // verus!
