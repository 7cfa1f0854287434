//! The OAuth 2.0 PKCE flow: verifier and challenge generation, the
//! transient per-flow state, and the authorization URL.
//!
//! A flow is created when a user starts linking a service and consumed
//! exactly once by the callback; a state value seen a second time is
//! rejected.

use vstd::prelude::*;
use vstd::string::StringExecFns;

use crate::crypto::{b64_encode, sha256, spec_b64, spec_b64_data_char, spec_b64_pad_len, spec_sha256};
use crate::strutil::str_eq;
use crate::track::clone_string;

verus! {

/// Seconds a flow stays valid after it is started.
pub const OAUTH_STATE_TTL_SECONDS: i64 = 600;

/// The length of a PKCE code verifier.
pub const CODE_VERIFIER_LENGTH: usize = 128;

/// The characters a code verifier draws from.
pub open spec fn spec_verifier_alphabet() -> Seq<char> {
    "ABCDEFGHIJKLMNOPQRSTUVWXYZabcdefghijklmnopqrstuvwxyz0123456789-._~"@
}

/// A well-formed code verifier: exactly the right length, every character
/// from the verifier alphabet.
pub open spec fn spec_verifier_ok(s: Seq<char>) -> bool {
    &&& s.len() == CODE_VERIFIER_LENGTH
    &&& forall|k: int| 0 <= k < s.len() ==> spec_verifier_alphabet().contains(#[trigger] s[k])
}

/// Relies on `rand::thread_rng` and `Rng::gen_range`: an index below the
/// bound.  Nothing else is assumed; two calls may differ.
#[verifier::external_body]
fn random_index(bound: usize) -> (r: usize)
    requires
        bound > 0,
    ensures
        r < bound,
{
    rand::Rng::gen_range(&mut rand::thread_rng(), 0..bound)
}

/// Relies on `uuid::Uuid::new_v4` and its hyphenated text form: 36
/// characters.  Nothing else is assumed; two calls may differ.
#[verifier::external_body]
fn new_uuid_string() -> (r: String)
    ensures
        r@.len() == 36,
{
    uuid::Uuid::new_v4().to_string()
}

/// What `urlencoding::encode` percent-encodes a text to.  The encoding is
/// a function of the text alone.
pub uninterp spec fn spec_url_encoding(s: Seq<char>) -> Seq<char>;

/// Relies on `urlencoding::encode`: percent-encodes every byte except
/// ASCII alphanumerics and `-`, `_`, `.`, `~`.
#[verifier::external_body]
pub fn url_encode(s: &str) -> (r: String)
    ensures
        r@ == spec_url_encoding(s@),
        s@.len() == 0 ==> r@.len() == 0,
{
    urlencoding::encode(s).into_owned()
}

/// Draw a fresh PKCE code verifier.
pub fn generate_code_verifier() -> (r: String)
    ensures
        spec_verifier_ok(r@),
{
    let alphabet = "ABCDEFGHIJKLMNOPQRSTUVWXYZabcdefghijklmnopqrstuvwxyz0123456789-._~";
    let n = alphabet.unicode_len();
    let mut out = String::new();
    let mut i: usize = 0;
    while i < CODE_VERIFIER_LENGTH
        invariant
            n == spec_verifier_alphabet().len(),
            alphabet@ == spec_verifier_alphabet(),
            i <= CODE_VERIFIER_LENGTH,
            out@.len() == i,
            forall|k: int|
                0 <= k < out@.len() ==> spec_verifier_alphabet().contains(#[trigger] out@[k]),
        decreases CODE_VERIFIER_LENGTH - i,
    {
        proof {
            reveal_strlit("ABCDEFGHIJKLMNOPQRSTUVWXYZabcdefghijklmnopqrstuvwxyz0123456789-._~");
        }
        let idx = random_index(n);
        let c = alphabet.get_char(idx);
        out.push(c);
        i += 1;
    }
    out
}

/// The URL-safe, unpadded form of a base64 text: `+` becomes `-`, `/`
/// becomes `_`, and the `=` padding is dropped.
pub open spec fn spec_urlsafe_nopad(s: Seq<char>) -> Seq<char>
    decreases s.len(),
{
    if s.len() == 0 {
        Seq::empty()
    } else {
        let rest = spec_urlsafe_nopad(s.drop_first());
        if s.first() == '=' {
            rest
        } else if s.first() == '+' {
            seq!['-'] + rest
        } else if s.first() == '/' {
            seq!['_'] + rest
        } else {
            seq![s.first()] + rest
        }
    }
}

/// Rewrite a base64 text into its URL-safe, unpadded form.
pub fn urlsafe_nopad(s: &str) -> (r: String)
    ensures
        r@ == spec_urlsafe_nopad(s@),
{
    let n = s.unicode_len();
    let mut out = String::new();
    let mut i: usize = 0;
    proof {
        assert(s@.skip(0) =~= s@);
    }
    while i < n
        invariant
            n == s@.len(),
            i <= n,
            spec_urlsafe_nopad(s@) == out@ + spec_urlsafe_nopad(s@.skip(i as int)),
        decreases n - i,
    {
        proof {
            assert(s@.skip(i as int).first() == s@[i as int]);
            assert(s@.skip(i as int).drop_first() =~= s@.skip(i + 1));
        }
        let c = s.get_char(i);
        if c == '=' {
        } else if c == '+' {
            out.push('-');
        } else if c == '/' {
            out.push('_');
        } else {
            out.push(c);
        }
        i += 1;
    }
    proof {
        assert(spec_urlsafe_nopad(s@.skip(n as int)) =~= Seq::<char>::empty());
        assert(out@ =~= spec_urlsafe_nopad(s@));
    }
    out
}

/// The PKCE code challenge of a verifier: the URL-safe, unpadded base64
/// form of its SHA-256 digest.
pub open spec fn spec_code_challenge(verifier: Seq<char>) -> Seq<char> {
    spec_urlsafe_nopad(spec_b64(spec_sha256(vstd::utf8::encode_utf8(verifier))))
}

/// Compute the PKCE code challenge of a code verifier: 43 characters,
/// free of `=`, `+` and `/`.
pub fn generate_code_challenge(code_verifier: &str) -> (r: String)
    ensures
        r@ == spec_code_challenge(code_verifier@),
        r@.len() == 43,
        forall|i: int|
            0 <= i < r@.len() ==> #[trigger] r@[i] != '=' && r@[i] != '+' && r@[i] != '/',
{
    let digest = sha256(code_verifier.as_bytes());
    let encoded = b64_encode(digest.as_slice());
    proof {
        lemma_urlsafe_nopad_shape(encoded@, 43);
    }
    urlsafe_nopad(encoded.as_str())
}

/// Dropping the padding of a base64 text and mapping `+` and `/` leaves
/// one output character per data character, none of them `=`, `+` or `/`.
proof fn lemma_urlsafe_nopad_shape(s: Seq<char>, k: int)
    requires
        0 <= k <= s.len(),
        forall|i: int| 0 <= i < k ==> spec_b64_data_char(#[trigger] s[i]),
        forall|i: int| k <= i < s.len() ==> #[trigger] s[i] == '=',
    ensures
        spec_urlsafe_nopad(s).len() == k,
        forall|i: int|
            0 <= i < spec_urlsafe_nopad(s).len() ==> #[trigger] spec_urlsafe_nopad(s)[i] != '='
                && spec_urlsafe_nopad(s)[i] != '+' && spec_urlsafe_nopad(s)[i] != '/',
    decreases s.len(),
{
    if s.len() > 0 {
        let rest = s.drop_first();
        assert forall|i: int| 0 <= i < rest.len() implies rest[i] == s[i + 1] by {}
        if k > 0 {
            lemma_urlsafe_nopad_shape(rest, k - 1);
            assert(spec_b64_data_char(s[0]));
            let out = spec_urlsafe_nopad(s);
            let tail = spec_urlsafe_nopad(rest);
            if s.first() == '+' {
                assert(out =~= seq!['-'] + tail);
            } else if s.first() == '/' {
                assert(out =~= seq!['_'] + tail);
            } else {
                assert(s.first() != '=');
                assert(out =~= seq![s.first()] + tail);
            }
            assert forall|i: int| 0 <= i < out.len() implies #[trigger] out[i] != '=' && out[i]
                != '+' && out[i] != '/' by {
                if i > 0 {
                    assert(out[i] == tail[i - 1]);
                }
            }
        } else {
            assert(s.first() == '=');
            lemma_urlsafe_nopad_shape(rest, 0);
        }
    }
}

/// One flow in progress: the random state value, the code verifier it
/// belongs to, the user who started it, and when it lapses.
pub struct OAuthState {
    pub state: String,
    pub code_verifier: String,
    pub user_id: i64,
    pub expires_at: i64,
}

/// Mathematical model of a flow.
pub struct OAuthStateView {
    pub state: Seq<char>,
    pub code_verifier: Seq<char>,
    pub user_id: i64,
    pub expires_at: i64,
}

impl View for OAuthState {
    type V = OAuthStateView;

    open spec fn view(&self) -> OAuthStateView {
        OAuthStateView {
            state: self.state@,
            code_verifier: self.code_verifier@,
            user_id: self.user_id,
            expires_at: self.expires_at,
        }
    }
}

/// Errors of the OAuth flow bookkeeping.
#[derive(Clone, Copy, PartialEq, Eq, Structural, Debug)]
pub enum OAuthError {
    /// The state value is unknown, already consumed, or expired.
    InvalidOAuthState,
}

/// The flows in progress, as models.
pub open spec fn flows_of(f: OAuthFlows) -> Seq<OAuthStateView> {
    f.flows@.map_values(|s: OAuthState| s@)
}

/// The flow stored under a state value, if any.
pub open spec fn spec_flow_lookup(flows: Seq<OAuthStateView>, state: Seq<char>) -> Option<
    OAuthStateView,
> {
    if exists|i: int| 0 <= i < flows.len() && (#[trigger] flows[i]).state == state {
        Some(flows[choose|i: int| 0 <= i < flows.len() && (#[trigger] flows[i]).state == state])
    } else {
        None
    }
}

/// Flow-set invariant: one flow per state value.
pub open spec fn flows_wf(f: OAuthFlows) -> bool {
    let flows = flows_of(f);
    forall|i: int, k: int|
        0 <= i < k < flows.len() ==> (#[trigger] flows[i]).state != (#[trigger] flows[k]).state
}

/// The transient store of flows in progress.
pub struct OAuthFlows {
    pub flows: Vec<OAuthState>,
}

impl OAuthFlows {
    /// No flows in progress.
    pub fn new() -> (f: OAuthFlows)
        ensures
            flows_wf(f),
            flows_of(f).len() == 0,
    {
        let f = OAuthFlows { flows: Vec::new() };
        proof {
            assert(flows_of(f) =~= Seq::<OAuthStateView>::empty());
        }
        f
    }

    /// The index of the flow stored under a state value.
    fn find_flow(&self, state: &str) -> (r: Option<usize>)
        ensures
            r matches Some(i) ==> i < flows_of(*self).len() && flows_of(*self)[i as int].state
                == state@,
            r is None ==> spec_flow_lookup(flows_of(*self), state@) is None,
    {
        let ghost flows = flows_of(*self);
        let mut i: usize = 0;
        while i < self.flows.len()
            invariant
                i <= flows.len(),
                flows == flows_of(*self),
                forall|k: int| 0 <= k < i ==> (#[trigger] flows[k]).state != state@,
            decreases flows.len() - i,
        {
            if str_eq(self.flows[i].state.as_str(), state) {
                return Some(i);
            }
            i += 1;
        }
        None
    }

    /// Store a fresh flow.  A flow already stored under the same state
    /// value is replaced; any other flow stays.
    pub fn insert(&mut self, flow: OAuthState)
        requires
            flows_wf(*old(self)),
        ensures
            flows_wf(*final(self)),
            spec_flow_lookup(flows_of(*final(self)), flow@.state) == Some(flow@),
            forall|s2: Seq<char>|
                s2 != flow@.state ==> #[trigger] spec_flow_lookup(flows_of(*final(self)), s2)
                    == spec_flow_lookup(flows_of(*old(self)), s2),
    {
        let ghost pre = flows_of(*self);
        let ghost fv = flow@;
        match self.find_flow(flow.state.as_str()) {
            Some(i) => {
                self.flows[i] = flow;
                proof {
                    let post = flows_of(*self);
                    assert(post =~= pre.update(i as int, fv));
                    assert forall|a: int, b: int|
                        0 <= a < b < post.len() implies (#[trigger] post[a]).state != (
                    #[trigger] post[b]).state by {
                        assert(post[a].state == pre[a].state && post[b].state == pre[b].state);
                    }
                    lemma_flow_unique(post, fv.state, i as int);
                    assert forall|s2: Seq<char>| s2 != fv.state implies #[trigger] spec_flow_lookup(
                        post,
                        s2,
                    ) == spec_flow_lookup(pre, s2) by {
                        lemma_flow_lookup_update_other(pre, post, i as int, s2);
                    }
                }
            },
            None => {
                self.flows.push(flow);
                proof {
                    let post = flows_of(*self);
                    assert(post =~= pre.push(fv));
                    assert forall|a: int| 0 <= a < pre.len() implies (#[trigger] pre[a]).state
                        != fv.state by {
                        if pre[a].state == fv.state {
                            assert(exists|j: int|
                                0 <= j < pre.len() && (#[trigger] pre[j]).state == fv.state);
                        }
                    }
                    assert forall|a: int, b: int|
                        0 <= a < b < post.len() implies (#[trigger] post[a]).state != (
                    #[trigger] post[b]).state by {
                        if b == post.len() - 1 {
                            assert(post[a] == pre[a]);
                        } else {
                            assert(post[a] == pre[a] && post[b] == pre[b]);
                        }
                    }
                    lemma_flow_unique(post, fv.state, post.len() - 1);
                    assert forall|s2: Seq<char>| s2 != fv.state implies #[trigger] spec_flow_lookup(
                        post,
                        s2,
                    ) == spec_flow_lookup(pre, s2) by {
                        lemma_flow_lookup_push_other(pre, post, s2);
                    }
                }
            },
        }
    }

    /// Match and consume the flow of a callback.
    ///
    /// The flow, if present, is removed whatever else happens: a state
    /// value matches at most one callback, and a replay fails.  A flow
    /// whose expiry has passed also fails.
    pub fn complete(&mut self, state: &str, now: i64) -> (r: Result<OAuthState, OAuthError>)
        requires
            flows_wf(*old(self)),
        ensures
            flows_wf(*final(self)),
            spec_flow_lookup(flows_of(*final(self)), state@) is None,
            spec_complete_post(flows_of(*old(self)), flows_of(*final(self)), state@, now, r),
    {
        let i = match self.find_flow(state) {
            Some(i) => i,
            None => {
                return Err(OAuthError::InvalidOAuthState);
            },
        };
        let ghost pre = flows_of(*self);
        proof {
            lemma_flow_unique(pre, state@, i as int);
        }
        let flow = self.flows.remove(i);
        proof {
            let post = flows_of(*self);
            assert(post =~= pre.remove(i as int));
            lemma_flow_remove(pre, post, i as int, state@);
        }
        if now > flow.expires_at {
            return Err(OAuthError::InvalidOAuthState);
        }
        Ok(flow)
    }
}

/// What `complete` returns: the stored, unexpired flow of the state
/// value, or the one error; the flow is gone either way, and no other
/// flow moves.
pub open spec fn spec_complete_post(
    pre: Seq<OAuthStateView>,
    post: Seq<OAuthStateView>,
    state: Seq<char>,
    now: i64,
    r: Result<OAuthState, OAuthError>,
) -> bool {
    &&& (forall|s2: Seq<char>|
        s2 != state ==> #[trigger] spec_flow_lookup(post, s2) == spec_flow_lookup(pre, s2))
    &&& match spec_flow_lookup(pre, state) {
        None => r == Err::<OAuthState, OAuthError>(OAuthError::InvalidOAuthState) && post == pre,
        Some(f) => {
            if now > f.expires_at {
                r == Err::<OAuthState, OAuthError>(OAuthError::InvalidOAuthState)
            } else {
                r matches Ok(got) && got@ == f
            }
        },
    }
}

/// A state value consumed once never matches again: the second call with
/// the same state fails.
pub proof fn lemma_replay_rejected(
    pre: Seq<OAuthStateView>,
    mid: Seq<OAuthStateView>,
    post: Seq<OAuthStateView>,
    state: Seq<char>,
    now1: i64,
    now2: i64,
    r1: Result<OAuthState, OAuthError>,
    r2: Result<OAuthState, OAuthError>,
)
    requires
        spec_complete_post(pre, mid, state, now1, r1),
        spec_flow_lookup(mid, state) is None,
        spec_complete_post(mid, post, state, now2, r2),
    ensures
        r2 == Err::<OAuthState, OAuthError>(OAuthError::InvalidOAuthState),
{
}

/// The scopes requested from Spotify, space-separated.
pub open spec fn spec_scopes() -> Seq<char> {
    "playlist-read-private playlist-read-collaborative playlist-modify-private playlist-modify-public user-read-private"@
}

/// The Spotify authorization URL for one flow.
pub open spec fn spec_authorize_url(
    client_id: Seq<char>,
    redirect_uri: Seq<char>,
    state: Seq<char>,
    challenge: Seq<char>,
) -> Seq<char> {
    "https://accounts.spotify.com/authorize?response_type=code&client_id="@ + spec_url_encoding(
        client_id,
    ) + "&redirect_uri="@ + spec_url_encoding(redirect_uri) + "&scope="@ + spec_url_encoding(
        spec_scopes(),
    ) + "&code_challenge_method=S256&code_challenge="@ + challenge + "&state="@ + state
}

/// What starting a flow guarantees: a fresh flow is stored under the
/// returned state, set to lapse after the TTL, and the returned URL
/// carries that flow's challenge; no other flow moves.
pub open spec fn spec_begin_ok(
    pre: Seq<OAuthStateView>,
    post: Seq<OAuthStateView>,
    client_id: Seq<char>,
    redirect_uri: Seq<char>,
    user_id: i64,
    now: i64,
    auth_url: Seq<char>,
    state: Seq<char>,
) -> bool {
    &&& match spec_flow_lookup(post, state) {
        Some(f) => {
            &&& f.user_id == user_id
            &&& f.expires_at == now + OAUTH_STATE_TTL_SECONDS
            &&& spec_verifier_ok(f.code_verifier)
            &&& auth_url == spec_authorize_url(
                client_id,
                redirect_uri,
                state,
                spec_code_challenge(f.code_verifier),
            )
        },
        None => false,
    }
    &&& forall|s2: Seq<char>|
        s2 != state ==> #[trigger] spec_flow_lookup(post, s2) == spec_flow_lookup(pre, s2)
}

/// The OAuth half of the Spotify connection: it issues authorization
/// URLs and matches callbacks to flows.  The token exchange itself is an
/// upstream HTTP call and happens outside; its result is stored through
/// the credential store.
pub struct SpotifyAuthService {
    pub client_id: String,
    pub redirect_uri: String,
    pub flows: OAuthFlows,
}

impl SpotifyAuthService {
    /// A service for one OAuth app.
    pub fn new(client_id: String, redirect_uri: String) -> (s: SpotifyAuthService)
        ensures
            flows_wf(s.flows),
            flows_of(s.flows).len() == 0,
            s.client_id@ == client_id@,
            s.redirect_uri@ == redirect_uri@,
    {
        SpotifyAuthService { client_id, redirect_uri, flows: OAuthFlows::new() }
    }

    /// Start a flow for a user: draw a state value and a code verifier,
    /// store the flow, and hand back the authorization URL and the state.
    pub fn start_auth_flow(&mut self, user_id: i64, now: i64) -> (r: (String, String))
        requires
            flows_wf(old(self).flows),
            now <= i64::MAX - OAUTH_STATE_TTL_SECONDS,
        ensures
            flows_wf(final(self).flows),
            final(self).client_id == old(self).client_id,
            final(self).redirect_uri == old(self).redirect_uri,
            spec_begin_ok(
                flows_of(old(self).flows),
                flows_of(final(self).flows),
                old(self).client_id@,
                old(self).redirect_uri@,
                user_id,
                now,
                r.0@,
                r.1@,
            ),
    {
        let state = new_uuid_string();
        let code_verifier = generate_code_verifier();
        let challenge = generate_code_challenge(code_verifier.as_str());
        let auth_url = String::from_str(
            "https://accounts.spotify.com/authorize?response_type=code&client_id=",
        ).concat(url_encode(self.client_id.as_str()).as_str()).concat("&redirect_uri=").concat(
            url_encode(self.redirect_uri.as_str()).as_str(),
        ).concat("&scope=").concat(
            url_encode(
                "playlist-read-private playlist-read-collaborative playlist-modify-private playlist-modify-public user-read-private",
            ).as_str(),
        ).concat("&code_challenge_method=S256&code_challenge=").concat(challenge.as_str()).concat(
            "&state=",
        ).concat(state.as_str());
        let flow = OAuthState {
            state: clone_string(&state),
            code_verifier,
            user_id,
            expires_at: now + OAUTH_STATE_TTL_SECONDS,
        };
        self.flows.insert(flow);
        (auth_url, state)
    }

    /// Match and consume the flow of a callback; see `OAuthFlows::complete`.
    /// The caller then exchanges the code upstream with the returned
    /// flow's verifier.
    pub fn complete_auth_flow(&mut self, state: &str, now: i64) -> (r: Result<
        OAuthState,
        OAuthError,
    >)
        requires
            flows_wf(old(self).flows),
        ensures
            flows_wf(final(self).flows),
            final(self).client_id == old(self).client_id,
            final(self).redirect_uri == old(self).redirect_uri,
            spec_flow_lookup(flows_of(final(self).flows), state@) is None,
            spec_complete_post(
                flows_of(old(self).flows),
                flows_of(final(self).flows),
                state@,
                now,
                r,
            ),
    {
        self.flows.complete(state, now)
    }
}

/// When flow `i` is the state's one flow, the lookup lands on it.
proof fn lemma_flow_unique(flows: Seq<OAuthStateView>, state: Seq<char>, i: int)
    requires
        0 <= i < flows.len(),
        flows[i].state == state,
        forall|a: int, b: int|
            0 <= a < b < flows.len() ==> (#[trigger] flows[a]).state != (
            #[trigger] flows[b]).state,
    ensures
        spec_flow_lookup(flows, state) == Some(flows[i]),
{
    let j = choose|j: int| 0 <= j < flows.len() && (#[trigger] flows[j]).state == state;
    if i != j {
        if i < j {
            assert(flows[i].state != flows[j].state);
        } else {
            assert(flows[j].state != flows[i].state);
        }
    }
}

/// For other state values, an in-place replacement changes no lookup.
proof fn lemma_flow_lookup_update_other(
    pre: Seq<OAuthStateView>,
    post: Seq<OAuthStateView>,
    i: int,
    s2: Seq<char>,
)
    requires
        0 <= i < pre.len(),
        post == pre.update(i, post[i]),
        pre[i].state == post[i].state,
        pre[i].state != s2,
        forall|a: int, b: int|
            0 <= a < b < pre.len() ==> (#[trigger] pre[a]).state != (#[trigger] pre[b]).state,
    ensures
        spec_flow_lookup(post, s2) == spec_flow_lookup(pre, s2),
{
    assert forall|a: int, b: int| 0 <= a < b < post.len() implies (#[trigger] post[a]).state != (
    #[trigger] post[b]).state by {
        assert(post[a].state == pre[a].state && post[b].state == pre[b].state);
    }
    if exists|j: int| 0 <= j < pre.len() && (#[trigger] pre[j]).state == s2 {
        let j = choose|j: int| 0 <= j < pre.len() && (#[trigger] pre[j]).state == s2;
        assert(post[j] == pre[j]);
        lemma_flow_unique(pre, s2, j);
        lemma_flow_unique(post, s2, j);
    } else {
        if exists|j: int| 0 <= j < post.len() && (#[trigger] post[j]).state == s2 {
            let j = choose|j: int| 0 <= j < post.len() && (#[trigger] post[j]).state == s2;
            assert(pre[j] == post[j]);
        }
    }
}

/// For other state values, a push changes no lookup.
proof fn lemma_flow_lookup_push_other(
    pre: Seq<OAuthStateView>,
    post: Seq<OAuthStateView>,
    s2: Seq<char>,
)
    requires
        post.len() == pre.len() + 1,
        post == pre.push(post[post.len() - 1]),
        post[post.len() - 1].state != s2,
        forall|a: int, b: int|
            0 <= a < b < post.len() ==> (#[trigger] post[a]).state != (#[trigger] post[b]).state,
    ensures
        spec_flow_lookup(post, s2) == spec_flow_lookup(pre, s2),
{
    if exists|j: int| 0 <= j < pre.len() && (#[trigger] pre[j]).state == s2 {
        let j = choose|j: int| 0 <= j < pre.len() && (#[trigger] pre[j]).state == s2;
        assert(post[j] == pre[j]);
        assert forall|a: int, b: int| 0 <= a < b < pre.len() implies (
        #[trigger] pre[a]).state != (#[trigger] pre[b]).state by {
            assert(pre[a] == post[a] && pre[b] == post[b]);
        }
        lemma_flow_unique(pre, s2, j);
        lemma_flow_unique(post, s2, j);
    } else {
        if exists|j: int| 0 <= j < post.len() && (#[trigger] post[j]).state == s2 {
            let j = choose|j: int| 0 <= j < post.len() && (#[trigger] post[j]).state == s2;
            assert(j < pre.len());
            assert(pre[j] == post[j]);
        }
    }
}

/// After removing the state's one flow, that state reads absent and no
/// other state moves.
proof fn lemma_flow_remove(
    pre: Seq<OAuthStateView>,
    post: Seq<OAuthStateView>,
    i: int,
    state: Seq<char>,
)
    requires
        0 <= i < pre.len(),
        pre[i].state == state,
        post == pre.remove(i),
        forall|a: int, b: int|
            0 <= a < b < pre.len() ==> (#[trigger] pre[a]).state != (#[trigger] pre[b]).state,
    ensures
        spec_flow_lookup(post, state) is None,
        forall|a: int, b: int|
            0 <= a < b < post.len() ==> (#[trigger] post[a]).state != (#[trigger] post[b]).state,
        forall|s2: Seq<char>|
            s2 != state ==> #[trigger] spec_flow_lookup(post, s2) == spec_flow_lookup(pre, s2),
{
    assert forall|a: int, b: int| 0 <= a < b < post.len() implies (#[trigger] post[a]).state != (
    #[trigger] post[b]).state by {
        let pa = if a < i {
            a
        } else {
            a + 1
        };
        let pb = if b < i {
            b
        } else {
            b + 1
        };
        assert(post[a] == pre[pa] && post[b] == pre[pb]);
    }
    assert forall|a: int| 0 <= a < post.len() implies (#[trigger] post[a]).state != state by {
        let pa = if a < i {
            a
        } else {
            a + 1
        };
        assert(post[a] == pre[pa]);
        if pa != i && pre[pa].state == state {
            if pa < i {
                assert(pre[pa].state != pre[i].state);
            } else {
                assert(pre[i].state != pre[pa].state);
            }
        }
    }
    assert forall|s2: Seq<char>| s2 != state implies #[trigger] spec_flow_lookup(post, s2)
        == spec_flow_lookup(pre, s2) by {
        if exists|j: int| 0 <= j < pre.len() && (#[trigger] pre[j]).state == s2 {
            let j = choose|j: int| 0 <= j < pre.len() && (#[trigger] pre[j]).state == s2;
            let j2 = if j < i {
                j
            } else {
                j - 1
            };
            assert(post[j2] == pre[j]);
            lemma_flow_unique(pre, s2, j);
            lemma_flow_unique(post, s2, j2);
        } else {
            if exists|j: int| 0 <= j < post.len() && (#[trigger] post[j]).state == s2 {
                let j = choose|j: int| 0 <= j < post.len() && (#[trigger] post[j]).state == s2;
                let pj = if j < i {
                    j
                } else {
                    j + 1
                };
                assert(pre[pj] == post[j]);
            }
        }
    }
}

} // verus!
