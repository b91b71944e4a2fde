//! Authorization request builder: the exact redirect URL that sends the
//! user to the provider, with every query parameter pinned down.

use vstd::prelude::*;
use vstd::string::{StringExecFns, StringSliceAdditionalSpecFns};
use vstd::utf8::{encode_utf8, valid_utf8};
use crate::config::{ClientConfig, ProviderConfig};
use crate::encoding::{append_encoded, append_lit, enc_str, str_eq, utf8_to_string};
use crate::pending::PendingLogin;

verus! {

/// What one configured scope contributes to the scope list.
pub open spec fn scope_chunk(s: Seq<char>) -> Seq<char> {
    if s == "openid"@ {
        Seq::empty()
    } else {
        " "@ + s
    }
}

pub open spec fn scope_pre(scopes: Seq<Seq<char>>, i: int) -> Seq<char>
    decreases i,
{
    if i <= 0 {
        Seq::empty()
    } else {
        scope_pre(scopes, i - 1) + scope_chunk(scopes[i - 1])
    }
}

/// The space-joined scope list: the identity scope always comes first,
/// then every configured scope except a repeated identity scope.
pub open spec fn scope_list(scopes: Seq<Seq<char>>) -> Seq<char> {
    "openid"@ + scope_pre(scopes, scopes.len() as int)
}

/// Builds the scope list.
pub fn build_scope_string(scopes: &Vec<String>) -> (r: String)
    ensures
        r@ == scope_list(scopes.deep_view()),
{
    let ghost dv = scopes.deep_view();
    let mut out = String::from_str("openid");
    let n = scopes.len();
    let mut i: usize = 0;
    proof {
        assert(out@ =~= "openid"@ + scope_pre(dv, 0));
    }
    while i < n
        invariant
            n == scopes@.len(),
            dv == scopes.deep_view(),
            i <= n,
            out@ == "openid"@ + scope_pre(dv, i as int),
        decreases n - i,
    {
        let s = &scopes[i];
        proof {
            assert(dv[i as int] == scopes@[i as int]@);
        }
        if !str_eq(s.as_str(), "openid") {
            out.append(" ");
            out.append(s.as_str());
            proof {
                assert(out@ =~= "openid"@ + scope_pre(dv, i as int + 1));
            }
        } else {
            proof {
                assert(scope_chunk(dv[i as int]) =~= Seq::<char>::empty());
                assert(out@ =~= "openid"@ + scope_pre(dv, i as int + 1));
            }
        }
        i = i + 1;
    }
    out
}

/// The challenge a pending login carries, if it carries one.
pub open spec fn pending_challenge(p: PendingLogin) -> Option<Seq<char>> {
    match p.pkce {
        None => None,
        Some(pair) => Some(pair.challenge@),
    }
}

/// The UTF-8 bytes of the authorization redirect URL.
pub open spec fn auth_url_bytes(
    endpoint: Seq<char>,
    client_id: Seq<char>,
    redirect_uri: Seq<char>,
    scopes: Seq<Seq<char>>,
    state: Seq<char>,
    nonce: Seq<char>,
    challenge: Option<Seq<char>>,
) -> Seq<u8> {
    encode_utf8(endpoint) + "?response_type=code&client_id=".spec_bytes() + enc_str(client_id)
        + "&redirect_uri=".spec_bytes() + enc_str(redirect_uri) + "&scope=".spec_bytes() + enc_str(
        scope_list(scopes),
    ) + "&state=".spec_bytes() + enc_str(state) + "&nonce=".spec_bytes() + enc_str(nonce) + (
    match challenge {
        None => Seq::<u8>::empty(),
        Some(ch) => "&code_challenge=".spec_bytes() + enc_str(ch)
            + "&code_challenge_method=S256".spec_bytes(),
    })
}

/// Composes the redirect URL to the provider's authorization endpoint,
/// with `response_type=code`, the client id, the redirect URI, the scope
/// list, state, nonce, and — when PKCE is on — the challenge and its
/// method. No side effects: transporting `pending` is the caller's task.
pub fn build_redirect(
    provider: &ProviderConfig,
    client: &ClientConfig,
    pending: &PendingLogin,
) -> (r: String)
    ensures
        encode_utf8(r@) == auth_url_bytes(
            provider.authorization_endpoint@,
            client.client_id@,
            client.redirect_uri@,
            client.scopes.deep_view(),
            pending.state@,
            pending.nonce@,
            pending_challenge(*pending),
        ),
{
    let mut out: Vec<u8> = Vec::new();
    proof {
        assert(valid_utf8(out@));
    }
    append_lit(&mut out, provider.authorization_endpoint.as_str());
    append_lit(&mut out, "?response_type=code&client_id=");
    append_encoded(&mut out, client.client_id.as_str());
    append_lit(&mut out, "&redirect_uri=");
    append_encoded(&mut out, client.redirect_uri.as_str());
    append_lit(&mut out, "&scope=");
    let sc = build_scope_string(&client.scopes);
    append_encoded(&mut out, sc.as_str());
    append_lit(&mut out, "&state=");
    append_encoded(&mut out, pending.state.as_str());
    append_lit(&mut out, "&nonce=");
    append_encoded(&mut out, pending.nonce.as_str());
    match &pending.pkce {
        None => {},
        Some(pair) => {
            append_lit(&mut out, "&code_challenge=");
            append_encoded(&mut out, pair.challenge.as_str());
            append_lit(&mut out, "&code_challenge_method=S256");
        },
    }
    proof {
        assert(out@ =~= auth_url_bytes(
            provider.authorization_endpoint@,
            client.client_id@,
            client.redirect_uri@,
            client.scopes.deep_view(),
            pending.state@,
            pending.nonce@,
            pending_challenge(*pending),
        ));
    }
    utf8_to_string(out)
}

} // verus!
