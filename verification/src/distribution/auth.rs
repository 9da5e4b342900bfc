//! Token authentication: the challenge that a registry sends with a `401`,
//! and the states that a client goes through to answer it.
//!
//! A challenge is the word `Bearer`, a space, and parameters `key="value"`
//! separated by `,`. A key is not empty and holds none of `=`, `,`, `"` and
//! space; a value holds no `"`.

use crate::error::Error;
use crate::search::{any, first, lemma_first_from_is};
use crate::text::{
    chars_of, find_any, index_of, lemma_index_of_any, lemma_index_of_any_is, slice_of,
    starts_with_at, str_eq, string_from,
};
use vstd::prelude::*;

verus! {

/// What a parameter of a challenge is.
pub struct ParamView {
    pub key: Seq<char>,
    pub value: Seq<char>,
}

/// Whether `k` can be the key of a parameter.
pub open spec fn valid_key(k: Seq<char>) -> bool {
    &&& k.len() > 0
    &&& forall|i: int|
        0 <= i < k.len() ==> #[trigger] k[i] != '=' && k[i] != ',' && k[i] != '"' && k[i] != ' '
}

/// Whether `v` can be the value of a parameter.
pub open spec fn valid_value(v: Seq<char>) -> bool {
    forall|i: int| 0 <= i < v.len() ==> #[trigger] v[i] != '"'
}

/// The text of one parameter.
pub open spec fn param_text(p: ParamView) -> Seq<char> {
    p.key + seq!['=', '"'] + p.value + seq!['"']
}

/// The text of parameters, separated by `,`.
pub open spec fn params_text(ps: Seq<ParamView>) -> Seq<char>
    decreases ps.len(),
{
    if ps.len() == 0 {
        Seq::empty()
    } else if ps.len() == 1 {
        param_text(ps[0])
    } else {
        param_text(ps[0]) + seq![','] + params_text(ps.drop_first())
    }
}

/// The parameters that `s` spells from `from` to its end, if it spells any.
pub open spec fn parse_params(s: Seq<char>, from: int) -> Option<Seq<ParamView>>
    decreases s.len() - from,
    via parse_params_decreases
{
    if from < 0 || from >= s.len() {
        None
    } else {
        let e = index_of(s, '=', from);
        let q = index_of(s, '"', e + 2);
        if e + 1 >= s.len() || s[e + 1] != '"' || q >= s.len() || !valid_key(s.subrange(from, e)) {
            None
        } else {
            let p = ParamView { key: s.subrange(from, e), value: s.subrange(e + 2, q) };
            if q + 1 == s.len() {
                Some(seq![p])
            } else if s[q + 1] != ',' {
                None
            } else {
                match parse_params(s, q + 2) {
                    Some(rest) => Some(seq![p] + rest),
                    None => None,
                }
            }
        }
    }
}

#[via_fn]
proof fn parse_params_decreases(s: Seq<char>, from: int) {
    if 0 <= from < s.len() {
        let e = index_of(s, '=', from);
        lemma_index_of_any(s, '=', '=', from);
        if e + 2 <= s.len() {
            lemma_index_of_any(s, '"', '"', e + 2);
        }
    }
}

/// The predicate "has the key `key`".
pub open spec fn keyed(key: Seq<char>) -> spec_fn(ParamView) -> bool {
    |p: ParamView| p.key == key
}

/// The value of the first parameter with the key `key`.
pub open spec fn param_of(ps: Seq<ParamView>, key: Seq<char>) -> Option<Seq<char>> {
    if any(ps, keyed(key)) {
        Some(ps[first(ps, keyed(key))].value)
    } else {
        None
    }
}

/// The characters `Bearer` and a space.
pub open spec fn bearer_prefix() -> Seq<char> {
    seq!['B', 'e', 'a', 'r', 'e', 'r', ' ']
}

/// What a challenge is: where to ask for a token, and for which service and
/// scope.
pub struct ChallengeView {
    pub realm: Seq<char>,
    pub service: Option<Seq<char>>,
    pub scope: Option<Seq<char>>,
}

/// The challenge that the header value `h` spells, if it spells one: it must
/// begin with `Bearer` and a space, the rest must be parameters, and one of
/// them must be the realm.
pub open spec fn parse_challenge_spec(h: Seq<char>) -> Option<ChallengeView> {
    if h.len() < 7 || h.subrange(0, 7) != bearer_prefix() {
        None
    } else {
        match parse_params(h, 7) {
            Some(ps) => match param_of(ps, "realm"@) {
                Some(realm) => Some(
                    ChallengeView {
                        realm,
                        service: param_of(ps, "service"@),
                        scope: param_of(ps, "scope"@),
                    },
                ),
                None => None,
            },
            None => None,
        }
    }
}

/// The text of parameters, written behind any text, reads back as those
/// parameters.
pub proof fn lemma_params_roundtrip(pre: Seq<char>, ps: Seq<ParamView>)
    requires
        ps.len() > 0,
        forall|i: int| 0 <= i < ps.len() ==> valid_key(#[trigger] ps[i].key),
        forall|i: int| 0 <= i < ps.len() ==> valid_value(#[trigger] ps[i].value),
    ensures
        parse_params(pre + params_text(ps), pre.len() as int) == Some(ps),
    decreases ps.len(),
{
    let s = pre + params_text(ps);
    let from = pre.len() as int;
    let p = ps[0];
    let kl = p.key.len() as int;
    let e = from + kl;
    let q = e + 2 + p.value.len();
    assert(valid_key(p.key) && valid_value(p.value));
    let pt = param_text(p);
    assert(pt.len() == p.key.len() + p.value.len() + 3);
    assert(params_text(ps).subrange(0, pt.len() as int) =~= pt) by {
        if ps.len() > 1 {
        }
    }
    assert forall|i: int| 0 <= i < pt.len() implies s[from + i] == pt[i] by {
        assert(params_text(ps).subrange(0, pt.len() as int)[i] == params_text(ps)[i]);
    }
    assert forall|i: int| from <= i < e implies s[i] != '=' by {
        assert(s[from + (i - from)] == pt[i - from]);
        assert(pt[i - from] == p.key[i - from]);
    }
    assert(s[e] == '=') by {
        assert(s[from + kl] == pt[kl]);
    }
    lemma_index_of_any_is(s, '=', '=', from, e);
    assert(s[e + 1] == '"') by {
        assert(s[from + (kl + 1)] == pt[kl + 1]);
    }
    assert forall|i: int| e + 2 <= i < q implies s[i] != '"' by {
        assert(s[from + (i - from)] == pt[i - from]);
        assert(pt[i - from] == p.value[i - e - 2]);
    }
    assert(s[q] == '"') by {
        assert(s[from + (q - from)] == pt[q - from]);
    }
    lemma_index_of_any_is(s, '"', '"', e + 2, q);
    assert(s.subrange(from, e) =~= p.key) by {
        assert forall|i: int| 0 <= i < p.key.len() implies s.subrange(from, e)[i] == p.key[i] by {
            assert(s[from + i] == pt[i]);
        }
    }
    assert(s.subrange(e + 2, q) =~= p.value) by {
        assert forall|i: int| 0 <= i < p.value.len() implies s.subrange(e + 2, q)[i]
            == p.value[i] by {
            assert(s[from + (kl + 2 + i)] == pt[kl + 2 + i]);
        }
    }
    if ps.len() == 1 {
        assert(q + 1 == s.len());
        assert(seq![p] =~= ps);
    } else {
        let rest = ps.drop_first();
        let pre2 = pre + pt + seq![','];
        assert(pre2 + params_text(rest) =~= s);
        assert(s[q + 1] == ',') by {
            assert(s[q + 1] == pre2[q + 1]);
        }
        assert forall|i: int| 0 <= i < rest.len() implies valid_key(#[trigger] rest[i].key)
            && valid_value(rest[i].value) by {
            assert(rest[i] == ps[i + 1]);
        }
        lemma_params_roundtrip(pre2, rest);
        assert(pre2.len() == q + 2);
        assert(seq![p] + rest =~= ps);
    }
}

/// What is read as parameters is the text of those parameters: there is at
/// least one, each has a key and a value that may stand in a parameter, and
/// written out again they give the text that was read.
pub proof fn lemma_params_sound(s: Seq<char>, from: int)
    ensures
        parse_params(s, from) matches Some(ps) ==> {
            &&& ps.len() > 0
            &&& forall|i: int| 0 <= i < ps.len() ==> valid_key(#[trigger] ps[i].key)
            &&& forall|i: int| 0 <= i < ps.len() ==> valid_value(#[trigger] ps[i].value)
            &&& 0 <= from < s.len()
            &&& params_text(ps) == s.skip(from)
        },
    decreases s.len() - from,
{
    if let Some(ps) = parse_params(s, from) {
        let e = index_of(s, '=', from);
        lemma_index_of_any(s, '=', '=', from);
        let q = index_of(s, '"', e + 2);
        lemma_index_of_any(s, '"', '"', e + 2);
        let p = ParamView { key: s.subrange(from, e), value: s.subrange(e + 2, q) };
        assert(valid_value(p.value));
        let pt = param_text(p);
        assert(pt =~= s.subrange(from, q + 1));
        if q + 1 == s.len() {
            assert(ps =~= seq![p]);
            assert(pt =~= s.skip(from));
        } else {
            lemma_params_sound(s, q + 2);
            let rest = parse_params(s, q + 2)->0;
            assert(ps =~= seq![p] + rest);
            assert(ps.drop_first() =~= rest);
            assert(ps[0] == p);
            assert(pt + seq![','] + s.skip(q + 2) =~= s.skip(from));
            assert forall|i: int| 0 <= i < ps.len() implies valid_key(#[trigger] ps[i].key)
                && valid_value(ps[i].value) by {
                if i > 0 {
                    assert(ps[i] == rest[i - 1]);
                }
            }
        }
    }
}

/// One parameter of a challenge.
#[derive(Debug, PartialEq, Eq)]
pub struct Param {
    pub key: String,
    pub value: String,
}

impl View for Param {
    type V = ParamView;

    open spec fn view(&self) -> ParamView {
        ParamView { key: self.key@, value: self.value@ }
    }
}

/// The views of a sequence of parameters.
pub open spec fn param_views(s: Seq<Param>) -> Seq<ParamView> {
    s.map_values(|p: Param| p@)
}

/// Decides `valid_key`.
fn check_key(k: &Vec<char>) -> (b: bool)
    ensures
        b == valid_key(k@),
{
    if k.len() == 0 {
        return false;
    }
    let mut i: usize = 0;
    while i < k.len()
        invariant
            0 <= i <= k@.len(),
            forall|j: int|
                0 <= j < i ==> #[trigger] k@[j] != '=' && k@[j] != ',' && k@[j] != '"' && k@[j]
                    != ' ',
        decreases k@.len() - i,
    {
        let c = k[i];
        if c == '=' || c == ',' || c == '"' || c == ' ' {
            return false;
        }
        i += 1;
    }
    true
}

/// Reads the parameters that `v` spells from `from` to its end.
pub fn read_params(v: &Vec<char>, from: usize) -> (r: Option<Vec<Param>>)
    ensures
        r is Some <==> parse_params(v@, from as int) is Some,
        r matches Some(ps) ==> parse_params(v@, from as int) == Some(param_views(ps@)),
{
    let ghost s = v@;
    let n = v.len();
    let mut ps: Vec<Param> = Vec::new();
    let mut pos: usize = from;
    assert(param_views(ps@) =~= Seq::<ParamView>::empty());
    loop
        invariant
            n == s.len(),
            s == v@,
            from <= pos,
            match parse_params(s, pos as int) {
                Some(rest) => parse_params(s, from as int) == Some(param_views(ps@) + rest),
                None => parse_params(s, from as int) is None,
            },
        decreases n + 2 - pos,
    {
        if pos >= n {
            return None;
        }
        let e = find_any(v, '=', '=', pos);
        if e >= n || n - e < 2 || v[e + 1] != '"' {
            return None;
        }
        let q = find_any(v, '"', '"', e + 2);
        if q >= n {
            return None;
        }
        let key = slice_of(v, pos, e);
        if !check_key(&key) {
            return None;
        }
        let value = slice_of(v, e + 2, q);
        let ghost before = param_views(ps@);
        let p = Param { key: string_from(&key), value: string_from(&value) };
        let ghost pv = p@;
        ps.push(p);
        assert(param_views(ps@) =~= before.push(pv));
        if q + 1 == n {
            assert(before + seq![pv] =~= before.push(pv));
            return Some(ps);
        }
        if v[q + 1] != ',' {
            return None;
        }
        proof {
            match parse_params(s, q + 2) {
                Some(rest) => {
                    assert(before + (seq![pv] + rest) =~= before.push(pv) + rest);
                },
                None => {},
            }
        }
        pos = q + 2;
    }
}

/// A challenge.
#[derive(Debug, PartialEq, Eq)]
pub struct Challenge {
    pub realm: String,
    pub service: Option<String>,
    pub scope: Option<String>,
}

/// The view of a string that may be absent.
pub open spec fn option_view(o: Option<String>) -> Option<Seq<char>> {
    match o {
        Some(s) => Some(s@),
        None => None,
    }
}

impl View for Challenge {
    type V = ChallengeView;

    open spec fn view(&self) -> ChallengeView {
        ChallengeView {
            realm: self.realm@,
            service: option_view(self.service),
            scope: option_view(self.scope),
        }
    }
}

impl Clone for Challenge {
    fn clone(&self) -> (c: Self)
        ensures
            c@ == self@,
    {
        Challenge {
            realm: self.realm.clone(),
            service: match &self.service {
                Some(s) => Some(s.clone()),
                None => None,
            },
            scope: match &self.scope {
                Some(s) => Some(s.clone()),
                None => None,
            },
        }
    }
}

/// The value of the first parameter of `ps` with the key `key`.
fn lookup(ps: &Vec<Param>, key: &str) -> (r: Option<String>)
    ensures
        option_view(r) == param_of(param_views(ps@), key@),
{
    let ghost s = param_views(ps@);
    let mut k: usize = 0;
    while k < ps.len()
        invariant
            0 <= k <= s.len(),
            s == param_views(ps@),
            forall|i: int| 0 <= i < k ==> !keyed(key@)(#[trigger] s[i]),
        decreases s.len() - k,
    {
        if str_eq(ps[k].key.as_str(), key) {
            proof {
                assert(keyed(key@)(s[k as int]));
                lemma_first_from_is(s, keyed(key@), 0, k as int);
            }
            return Some(ps[k].value.clone());
        }
        k += 1;
    }
    proof {
        lemma_first_from_is(s, keyed(key@), 0, k as int);
    }
    None
}

impl Challenge {
    /// Reads a challenge from the value of a `WWW-Authenticate` header.
    pub fn parse(header: &str) -> (r: Result<Challenge, Error>)
        ensures
            r matches Ok(c) ==> parse_challenge_spec(header@) == Some(c@),
            r matches Err(e) ==> e == Error::ProtocolError && parse_challenge_spec(header@)
                is None,
    {
        let v = chars_of(header);
        if v.len() < 7 || !starts_with_at(&v, 0, "Bearer ") {
            proof {
                reveal_strlit("Bearer ");
                if v@.len() >= 7 {
                    assert("Bearer "@ =~= bearer_prefix());
                }
            }
            return Err(Error::ProtocolError);
        }
        proof {
            reveal_strlit("Bearer ");
            assert("Bearer "@ =~= bearer_prefix());
        }
        let ps = match read_params(&v, 7) {
            Some(ps) => ps,
            None => {
                return Err(Error::ProtocolError);
            },
        };
        let realm = match lookup(&ps, "realm") {
            Some(realm) => realm,
            None => {
                return Err(Error::ProtocolError);
            },
        };
        let service = lookup(&ps, "service");
        let scope = lookup(&ps, "scope");
        Ok(Challenge { realm, service, scope })
    }
}

/// The parameters of a challenge: the realm, then the service and the
/// scope as far as they are there.
pub open spec fn challenge_params(c: ChallengeView) -> Seq<ParamView> {
    seq![ParamView { key: "realm"@, value: c.realm }] + (match c.service {
        Some(v) => seq![ParamView { key: "service"@, value: v }],
        None => Seq::empty(),
    }) + (match c.scope {
        Some(v) => seq![ParamView { key: "scope"@, value: v }],
        None => Seq::empty(),
    })
}

/// The header value that states the challenge `c`.
pub open spec fn challenge_text(c: ChallengeView) -> Seq<char> {
    bearer_prefix() + params_text(challenge_params(c))
}

/// None of the values of `c` holds a `"`.
pub open spec fn valid_challenge(c: ChallengeView) -> bool {
    &&& valid_value(c.realm)
    &&& c.service matches Some(v) ==> valid_value(v)
    &&& c.scope matches Some(v) ==> valid_value(v)
}

/// The header value that states a challenge reads back as that challenge.
pub proof fn lemma_challenge_roundtrip(c: ChallengeView)
    requires
        valid_challenge(c),
    ensures
        parse_challenge_spec(challenge_text(c)) == Some(c),
{
    reveal_strlit("realm");
    reveal_strlit("service");
    reveal_strlit("scope");
    let ps = challenge_params(c);
    let h = challenge_text(c);
    assert(valid_key("realm"@));
    assert(valid_key("service"@));
    assert(valid_key("scope"@));
    assert("realm"@[0] != "scope"@[0]);
    lemma_params_roundtrip(bearer_prefix(), ps);
    assert(h.subrange(0, 7) =~= bearer_prefix());
    assert(keyed("realm"@)(ps[0]));
    lemma_first_from_is(ps, keyed("realm"@), 0, 0);
    match c.service {
        Some(v) => {
            assert(keyed("service"@)(ps[1]));
            lemma_first_from_is(ps, keyed("service"@), 0, 1);
            match c.scope {
                Some(w) => {
                    assert(keyed("scope"@)(ps[2]));
                    lemma_first_from_is(ps, keyed("scope"@), 0, 2);
                },
                None => {
                    lemma_first_from_is(ps, keyed("scope"@), 0, 2);
                },
            }
        },
        None => {
            match c.scope {
                Some(w) => {
                    assert(keyed("scope"@)(ps[1]));
                    lemma_first_from_is(ps, keyed("scope"@), 0, 1);
                    lemma_first_from_is(ps, keyed("service"@), 0, 2);
                },
                None => {
                    lemma_first_from_is(ps, keyed("scope"@), 0, 1);
                    lemma_first_from_is(ps, keyed("service"@), 0, 1);
                },
            }
        },
    }
}

/// The token in the answer of a realm, which may give it as `token`, as
/// `access_token`, or as both: `token` goes first.
pub fn pick_token(token: Option<String>, access_token: Option<String>) -> (r: Option<String>)
    ensures
        r == (match token {
            Some(t) => Some(t),
            None => access_token,
        }),
{
    match token {
        Some(t) => Some(t),
        None => access_token,
    }
}

/// What the state of authentication is.
pub enum AuthStateView {
    Unauthenticated,
    TokenRequested(ChallengeView),
    Authenticated(Seq<char>),
}

/// What an action of authentication is.
pub enum AuthActionView {
    Proceed,
    FetchToken(ChallengeView),
    Retry,
    Fail(Error),
}

impl AuthStateView {
    /// The value of the `Authorization` header of the next request, if it
    /// is to carry one: `Bearer`, a space and the token.
    pub open spec fn authorization(self) -> Option<Seq<char>> {
        match self {
            AuthStateView::Authenticated(t) => Some(bearer_prefix() + t),
            _ => None,
        }
    }

    /// What a response means. Anything but a `401` is for the caller. A
    /// `401` to a request without a token must carry a challenge, for which
    /// a token is then fetched; a `401` to a request with a token is final.
    pub open spec fn on_response(self, status: u16, header: Option<Seq<char>>) -> (
        AuthStateView,
        AuthActionView,
    ) {
        if status != 401 {
            (self, AuthActionView::Proceed)
        } else {
            match self {
                AuthStateView::Unauthenticated => match header {
                    Some(h) => match parse_challenge_spec(h) {
                        Some(c) => (
                            AuthStateView::TokenRequested(c),
                            AuthActionView::FetchToken(c),
                        ),
                        None => (self, AuthActionView::Fail(Error::ProtocolError)),
                    },
                    None => (self, AuthActionView::Fail(Error::AuthFailure)),
                },
                AuthStateView::TokenRequested(_) => (
                    self,
                    AuthActionView::Fail(Error::ProtocolError),
                ),
                AuthStateView::Authenticated(_) => (self, AuthActionView::Fail(Error::AuthFailure)),
            }
        }
    }

    /// What the answer of the realm means: with a token the request that
    /// was challenged is sent again; without one the authentication has
    /// failed.
    pub open spec fn on_token(self, token: Option<Seq<char>>) -> (AuthStateView, AuthActionView) {
        match self {
            AuthStateView::TokenRequested(_) => match token {
                Some(t) => (AuthStateView::Authenticated(t), AuthActionView::Retry),
                None => (AuthStateView::Unauthenticated, AuthActionView::Fail(Error::AuthFailure)),
            },
            _ => (self, AuthActionView::Fail(Error::ProtocolError)),
        }
    }
}

/// A challenge that is answered with a token leads to exactly one more
/// attempt of the request that was challenged, and that attempt carries the
/// token: the `401` asks for a token, the token asks for the retry, the
/// retry has the `Authorization` header set, any response to it but a `401`
/// is handed to the caller, and a second `401` ends in failure, not in
/// another retry.
pub proof fn lemma_challenge_then_token(
    header: Seq<char>,
    token: Seq<char>,
    status: u16,
    next_header: Option<Seq<char>>,
)
    requires
        parse_challenge_spec(header) is Some,
    ensures
        ({
            let first = AuthStateView::Unauthenticated.on_response(401, Some(header));
            let second = first.0.on_token(Some(token));
            let third = second.0.on_response(status, next_header);
            &&& AuthStateView::Unauthenticated.authorization() is None
            &&& first.1 == AuthActionView::FetchToken(parse_challenge_spec(header)->0)
            &&& second.1 == AuthActionView::Retry
            &&& second.0.authorization() == Some(bearer_prefix() + token)
            &&& status != 401 ==> third == (second.0, AuthActionView::Proceed)
            &&& status == 401 ==> third == (second.0, AuthActionView::Fail(Error::AuthFailure))
        }),
{
}

/// The state of authentication towards one registry.
#[derive(Debug, PartialEq, Eq)]
pub enum AuthState {
    /// No token is known, and none was asked for.
    Unauthenticated,
    /// The registry sent this challenge, and the token is being fetched.
    TokenRequested(Challenge),
    /// Requests carry this token.
    Authenticated(String),
}

/// What the caller is to do next.
#[derive(Debug, PartialEq, Eq)]
pub enum AuthAction {
    /// The response is not about authentication: go on with it.
    Proceed,
    /// Ask the realm of this challenge for a token, and report the answer
    /// with `on_token`.
    FetchToken(Challenge),
    /// Send the request that was challenged again, with the `Authorization`
    /// header.
    Retry,
    /// Give up, with this error.
    Fail(Error),
}

impl View for AuthState {
    type V = AuthStateView;

    open spec fn view(&self) -> AuthStateView {
        match self {
            AuthState::Unauthenticated => AuthStateView::Unauthenticated,
            AuthState::TokenRequested(c) => AuthStateView::TokenRequested(c@),
            AuthState::Authenticated(t) => AuthStateView::Authenticated(t@),
        }
    }
}

impl View for AuthAction {
    type V = AuthActionView;

    open spec fn view(&self) -> AuthActionView {
        match self {
            AuthAction::Proceed => AuthActionView::Proceed,
            AuthAction::FetchToken(c) => AuthActionView::FetchToken(c@),
            AuthAction::Retry => AuthActionView::Retry,
            AuthAction::Fail(e) => AuthActionView::Fail(*e),
        }
    }
}

impl AuthState {
    /// The state before anything was sent.
    pub fn new() -> (s: AuthState)
        ensures
            s@ == AuthStateView::Unauthenticated,
    {
        AuthState::Unauthenticated
    }

    /// The state of a client that was given a token to begin with.
    pub fn with_token(token: String) -> (s: AuthState)
        ensures
            s@ == AuthStateView::Authenticated(token@),
    {
        AuthState::Authenticated(token)
    }

    /// The value of the `Authorization` header of the next request, if it
    /// is to carry one.
    pub fn authorization(&self) -> (r: Option<String>)
        ensures
            option_view(r) == self@.authorization(),
    {
        match self {
            AuthState::Authenticated(t) => {
                let mut h = String::new();
                h.push('B');
                h.push('e');
                h.push('a');
                h.push('r');
                h.push('e');
                h.push('r');
                h.push(' ');
                assert(h@ =~= bearer_prefix());
                h.append(t.as_str());
                Some(h)
            },
            _ => None,
        }
    }

    /// Takes note of a response with the status `status` and, if it had one,
    /// the value `www_authenticate` of its `WWW-Authenticate` header.
    pub fn on_response(&mut self, status: u16, www_authenticate: Option<&str>) -> (a: AuthAction)
        ensures
            (final(self)@, a@) == old(self)@.on_response(
                status,
                match www_authenticate {
                    Some(h) => Some(h@),
                    None => None,
                },
            ),
    {
        if status != 401 {
            return AuthAction::Proceed;
        }
        match self {
            AuthState::Unauthenticated => match www_authenticate {
                Some(h) => match Challenge::parse(h) {
                    Ok(c) => {
                        let copy = c.clone();
                        *self = AuthState::TokenRequested(c);
                        AuthAction::FetchToken(copy)
                    },
                    Err(e) => AuthAction::Fail(Error::ProtocolError),
                },
                None => AuthAction::Fail(Error::AuthFailure),
            },
            AuthState::TokenRequested(_) => AuthAction::Fail(Error::ProtocolError),
            AuthState::Authenticated(_) => AuthAction::Fail(Error::AuthFailure),
        }
    }

    /// Takes note of what the realm answered: a token, or none.
    pub fn on_token(&mut self, token: Option<String>) -> (a: AuthAction)
        ensures
            (final(self)@, a@) == old(self)@.on_token(option_view(token)),
    {
        match self {
            AuthState::TokenRequested(_) => match token {
                Some(t) => {
                    *self = AuthState::Authenticated(t);
                    AuthAction::Retry
                },
                None => {
                    *self = AuthState::Unauthenticated;
                    AuthAction::Fail(Error::AuthFailure)
                },
            },
            _ => AuthAction::Fail(Error::ProtocolError),
        }
    }
}

} // verus!
