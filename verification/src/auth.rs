//! Pieces of the OpenLink auth service that decide rather than talk:
//! reading the CID out of an access token, the networks and their OIDC
//! providers, the default network of an exchange request, and the HTTP
//! status and message that each error is answered with.
use vstd::prelude::*;
use vstd::string::*;
use crate::numbers::{parse_u16, spec_parse_u16};
use crate::text::{chars_of, joined, lower_text, range_eq, str_eq, substring, to_lowercase};

verus! {

broadcast use vstd::string::group_string_axioms;

#[verifier::external_type_specification]
#[verifier::external_body]
pub struct ExReqwestError(reqwest::Error);

#[verifier::external_type_specification]
#[verifier::external_body]
pub struct ExSerdeJsonError(serde_json::Error);

/// OIDC provider parameters for a single network.
#[derive(Debug, Clone)]
pub struct OidcProviderConfig {
    /// Base URL of the OIDC token endpoint (e.g. `http://localhost:4000/token`).
    pub token_url: String,
}

/// Errors that can occur during the authentication flow.
#[derive(Debug)]
pub enum AuthError {
    /// The requested network has no configured OIDC provider.
    UnknownNetwork(String),
    /// The OIDC code exchange failed or the provider returned an error.
    OidcExchangeFailed(String),
    /// The HTTP call to the OIDC provider failed at the transport level.
    HttpError(reqwest::Error),
    /// An NKey operation failed (key generation or signing).
    NKeyError(String),
    /// JSON (de)serialisation error.
    Serialization(serde_json::Error),
}

/// The HTTP status that answers an error.
pub open spec fn spec_status_code(e: AuthError) -> u16 {
    match e {
        AuthError::UnknownNetwork(_) => 400,
        AuthError::OidcExchangeFailed(_) => 401,
        AuthError::HttpError(_) => 502,
        AuthError::NKeyError(_) => 500,
        AuthError::Serialization(_) => 500,
    }
}

impl AuthError {
    /// The HTTP status that the service answers this error with.
    pub fn status_code(&self) -> (r: u16)
        ensures
            r == spec_status_code(*self),
    {
        match self {
            AuthError::UnknownNetwork(_) => 400,
            AuthError::OidcExchangeFailed(_) => 401,
            AuthError::HttpError(_) => 502,
            AuthError::NKeyError(_) => 500,
            AuthError::Serialization(_) => 500,
        }
    }
}

/// Calls `reqwest::Error`'s `Display`. Its text depends on the error's
/// kind, URL and source, none of which the library reads, so nothing is
/// stated of it.
#[verifier::external_body]
fn reqwest_error_text(e: &reqwest::Error) -> String {
    format!("{e}")
}

/// Calls `serde_json::Error`'s `Display`. Its text depends on the error's
/// category and position, which the library does not read, so nothing is
/// stated of it.
#[verifier::external_body]
fn serde_json_error_text(e: &serde_json::Error) -> String {
    format!("{e}")
}

impl AuthError {
    /// The message the service reports an error with.
    pub fn message(&self) -> (r: String)
        ensures
            match self {
                AuthError::UnknownNetwork(n) => r@ == "unknown network: "@ + n@,
                AuthError::OidcExchangeFailed(m) => r@ == "OIDC authentication failed: "@ + m@,
                AuthError::HttpError(_) => "failed to reach identity provider: "@.is_prefix_of(r@),
                AuthError::NKeyError(m) => r@ == "NKey error: "@ + m@,
                AuthError::Serialization(_) => "serialization error: "@.is_prefix_of(r@),
            },
    {
        match self {
            AuthError::UnknownNetwork(n) => joined("unknown network: ", n.as_str()),
            AuthError::OidcExchangeFailed(m) => joined("OIDC authentication failed: ", m.as_str()),
            AuthError::HttpError(err) => {
                let t = reqwest_error_text(err);
                let r = joined("failed to reach identity provider: ", t.as_str());
                proof {
                    assert(r@.subrange(0, "failed to reach identity provider: "@.len() as int)
                        =~= "failed to reach identity provider: "@);
                }
                r
            },
            AuthError::NKeyError(m) => joined("NKey error: ", m.as_str()),
            AuthError::Serialization(err) => {
                let t = serde_json_error_text(err);
                let r = joined("serialization error: ", t.as_str());
                proof {
                    assert(r@.subrange(0, "serialization error: "@.len() as int)
                        =~= "serialization error: "@);
                }
                r
            },
        }
    }
}

/// The network an exchange request names when it names none.
pub fn default_network() -> (r: String)
    ensures
        r@ == "demonetwork"@,
{
    "demonetwork".to_owned()
}

/// `p` is the last position of `s` that holds `c`.
pub open spec fn is_last_char(s: Seq<char>, c: char, p: int) -> bool {
    0 <= p < s.len() && s[p] == c && forall|q: int| p < q < s.len() ==> s[q] != c
}

/// The text after the last `c` in `s`, or all of `s` when `c` does not occur
/// (the first piece that `str::rsplit` yields).
pub open spec fn after_last(s: Seq<char>, c: char) -> Seq<char> {
    if exists|p: int| is_last_char(s, c, p) {
        s.skip((choose|p: int| is_last_char(s, c, p)) + 1)
    } else {
        s
    }
}

/// The error text for a token of an unexpected form.
pub open spec fn bad_token_text(token: Seq<char>) -> Seq<char> {
    "unexpected access_token format: "@ + token
}

/// Parse the CID from a mock-oidc access token.
///
/// The mock provider returns tokens in the form `"vatsim_{cid}"`.
/// We take everything after the last `_` as the CID; it must not be empty.
pub fn extract_cid_from_token(token: &str) -> (r: Result<String, AuthError>)
    ensures
        after_last(token@, '_').len() > 0 ==> (r matches Ok(cid) && cid@ == after_last(
            token@,
            '_',
        )),
        after_last(token@, '_').len() == 0 ==> (r matches Err(AuthError::OidcExchangeFailed(m))
            && m@ == bad_token_text(token@)),
{
    let v = chars_of(token);
    let n = v.len();
    let mut i = n;
    while i > 0 && v[i - 1] != '_'
        invariant
            i <= n == v@.len(),
            forall|q: int| i <= q < n ==> v@[q] != '_',
        decreases i,
    {
        i = i - 1;
    }
    proof {
        if i > 0 {
            assert(is_last_char(v@, '_', i - 1));
            let c = choose|p: int| is_last_char(v@, '_', p);
            if c < i - 1 {
                assert(v@[i - 1] != '_');
            }
            if c > i - 1 {
                assert(v@[c] != '_');
            }
            assert(v@.skip(i as int) =~= v@.subrange(i as int, n as int));
        } else {
            if exists|p: int| is_last_char(v@, '_', p) {
                let c = choose|p: int| is_last_char(v@, '_', p);
                assert(v@[c] != '_');
            }
            assert(v@ =~= v@.subrange(0, n as int));
        }
    }
    if i < n {
        Ok(substring(token, i, n))
    } else {
        let mut m = "unexpected access_token format: ".to_owned();
        m.append(token);
        Err(AuthError::OidcExchangeFailed(m))
    }
}

/// The CID from the `access_token` field of a token endpoint's answer
/// (`None` when the answer has no such text field): missing, it is a failed
/// exchange; present, the CID is read from it as `extract_cid_from_token`
/// reads it.
pub fn cid_from_access_token(token: Option<&str>) -> (r: Result<String, AuthError>)
    ensures
        token is None ==> (r matches Err(AuthError::OidcExchangeFailed(m)) && m@
            == "missing access_token"@),
        token matches Some(t) ==> (after_last(t@, '_').len() > 0 ==> (r matches Ok(cid)
            && cid@ == after_last(t@, '_'))),
        token matches Some(t) ==> (after_last(t@, '_').len() == 0 ==> (r matches Err(
            AuthError::OidcExchangeFailed(m),
        ) && m@ == bad_token_text(t@))),
{
    match token {
        Some(t) => extract_cid_from_token(t),
        None => Err(AuthError::OidcExchangeFailed("missing access_token".to_owned())),
    }
}

/// Global configuration of the auth service: the OIDC provider of each
/// network, and the port to listen on.
#[derive(Debug, Clone)]
pub struct AppConfig {
    /// Network key and its OIDC provider; no key occurs twice.
    pub networks: Vec<(String, OidcProviderConfig)>,
    /// Port to listen on (default 3001).
    pub listen_port: u16,
}

/// `i` is the first entry of the list for the network.
pub open spec fn is_first_network(nets: Seq<(String, OidcProviderConfig)>, key: Seq<char>, i: int) -> bool {
    &&& 0 <= i < nets.len()
    &&& nets[i].0@ == key
    &&& forall|j: int| 0 <= j < i ==> (#[trigger] nets[j]).0@ != key
}

/// Some entry of the list is for the network.
pub open spec fn has_network(nets: Seq<(String, OidcProviderConfig)>, key: Seq<char>) -> bool {
    exists|i: int| 0 <= i < nets.len() && (#[trigger] nets[i]).0@ == key
}

/// Whether some entry of the list is for the network.
fn has_network_exec(nets: &Vec<(String, OidcProviderConfig)>, key: &str) -> (r: bool)
    ensures
        r == has_network(nets@, key@),
{
    let mut i: usize = 0;
    while i < nets.len()
        invariant
            i <= nets@.len(),
            forall|j: int| 0 <= j < i ==> (#[trigger] nets@[j]).0@ != key@,
        decreases nets@.len() - i,
    {
        if str_eq(nets[i].0.as_str(), key) {
            return true;
        }
        i = i + 1;
    }
    false
}

/// The network that an environment variable `OIDC_{NETWORK}_TOKEN_URL`
/// configures, in lower case; `None` for any other variable.
pub open spec fn network_var_key(name: Seq<char>) -> Option<Seq<char>> {
    if name.len() > 15 && name.take(5) == "OIDC_"@ && name.skip(name.len() - 10)
        == "_TOKEN_URL"@ {
        Some(lower_text(name.subrange(5, name.len() - 10)))
    } else {
        None
    }
}

/// Variable `j` of `vars` is the first one that configures network `key`.
pub open spec fn is_first_var_for(vars: Seq<(String, String)>, key: Seq<char>, j: int) -> bool {
    &&& 0 <= j < vars.len()
    &&& network_var_key(vars[j].0@) == Some(key)
    &&& forall|q: int| 0 <= q < j ==> network_var_key((#[trigger] vars[q]).0@) != Some(key)
}

/// The entry comes from the first variable of `vars` that configures its
/// network, and holds that variable's value as its token endpoint.
pub open spec fn entry_from_vars(vars: Seq<(String, String)>, entry: (String, OidcProviderConfig)) -> bool {
    exists|j: int| is_first_var_for(vars, entry.0@, j) && entry.1.token_url@ == vars[j].1@
}

/// Some variable of `vars` configures network `key`.
pub open spec fn var_configures(vars: Seq<(String, String)>, key: Seq<char>) -> bool {
    exists|j: int| 0 <= j < vars.len() && network_var_key((#[trigger] vars[j]).0@) == Some(key)
}

/// No two entries of the list are for the same network.
pub open spec fn networks_distinct(nets: Seq<(String, OidcProviderConfig)>) -> bool {
    forall|i: int, j: int|
        0 <= i < j < nets.len() ==> (#[trigger] nets[i]).0@ != (#[trigger] nets[j]).0@
}

/// The network a variable name configures, if it is an
/// `OIDC_{NETWORK}_TOKEN_URL` variable.
pub fn network_of_variable(name: &str) -> (r: Option<String>)
    ensures
        match network_var_key(name@) {
            Some(k) => r matches Some(x) && x@ == k,
            None => r is None,
        },
{
    let v = chars_of(name);
    let n = v.len();
    if n <= 15 {
        return None;
    }
    proof {
        assert(v@.subrange(0, 5) =~= v@.take(5));
        assert(v@.subrange(n - 10, n as int) =~= v@.skip(n - 10));
    }
    if !range_eq(&v, 0, 5, "OIDC_") || !range_eq(&v, n - 10, n, "_TOKEN_URL") {
        return None;
    }
    let middle = substring(name, 5, n - 10);
    Some(to_lowercase(middle.as_str()))
}

impl AppConfig {
    /// The configuration from the environment: `auth_port` is the value of
    /// `AUTH_PORT`, `vatsim_token_url` that of `OIDC_VATSIM_TOKEN_URL` (each
    /// `None` when unset), and `vars` the other variables, by name and value.
    /// The port is `AUTH_PORT` when it is a 16-bit number, else 3001. The
    /// `vatsim` network is always present, with its variable's endpoint or
    /// `http://localhost:4000/token`. Each further variable
    /// `OIDC_{NETWORK}_TOKEN_URL` adds the network named by its lower-cased
    /// `{NETWORK}`, with the endpoint of the first such variable.
    pub fn from_env_values(
        auth_port: Option<&str>,
        vatsim_token_url: Option<String>,
        vars: &[(String, String)],
    ) -> (r: AppConfig)
        ensures
            r.listen_port == (match auth_port {
                Some(p) => match spec_parse_u16(p@) {
                    Some(n) => n,
                    None => 3001,
                },
                None => 3001,
            }),
            r.networks@.len() >= 1,
            r.networks@[0].0@ == "vatsim"@,
            r.networks@[0].1.token_url@ == (match vatsim_token_url {
                Some(u) => u@,
                None => "http://localhost:4000/token"@,
            }),
            networks_distinct(r.networks@),
            forall|k: Seq<char>|
                #![trigger has_network(r.networks@, k)]
                has_network(r.networks@, k) <==> (k == "vatsim"@ || var_configures(vars@, k)),
            forall|i: int|
                1 <= i < r.networks@.len() ==> entry_from_vars(vars@, #[trigger] r.networks@[i]),
    {
        let listen_port: u16 = match auth_port {
            Some(p) => match parse_u16(p) {
                Some(n) => n,
                None => 3001,
            },
            None => 3001,
        };
        let token_url = match vatsim_token_url {
            Some(u) => u,
            None => "http://localhost:4000/token".to_owned(),
        };
        let mut networks = vec![("vatsim".to_owned(), OidcProviderConfig { token_url })];
        let ghost first = networks@[0];
        proof {
            reveal_strlit("vatsim");
            assert forall|k: Seq<char>| #[trigger]
                has_network(networks@, k) <==> (k == "vatsim"@ || var_configures(
                    vars@.take(0),
                    k,
                )) by {
                if has_network(networks@, k) {
                    let i = choose|i: int| 0 <= i < networks@.len() && (#[trigger] networks@[i]).0@ == k;
                    assert(i == 0);
                }
                if k == "vatsim"@ {
                    assert(networks@[0].0@ == k);
                }
            }
        }
        let mut i: usize = 0;
        while i < vars.len()
            invariant
                i <= vars@.len(),
                networks@.len() >= 1,
                networks@[0] == first,
                first.0@ == "vatsim"@,
                networks_distinct(networks@),
                forall|k: Seq<char>|
                    #![trigger has_network(networks@, k)]
                    has_network(networks@, k) <==> (k == "vatsim"@ || var_configures(
                        vars@.take(i as int),
                        k,
                    )),
                forall|e: int|
                    1 <= e < networks@.len() ==> entry_from_vars(
                        vars@.take(i as int),
                        #[trigger] networks@[e],
                    ),
            decreases vars@.len() - i,
        {
            let ghost before = networks@;
            let ghost pre = vars@.take(i as int);
            let ghost post = vars@.take(i + 1);
            proof {
                assert forall|q: int| 0 <= q < i implies #[trigger] post[q] == pre[q] by {}
                assert(post[i as int] == vars@[i as int]);
            }
            match network_of_variable(vars[i].0.as_str()) {
                Some(key) => {
                    if !has_network_exec(&networks, key.as_str()) {
                        let url = vars[i].1.clone();
                        proof {
                            assert(url@ == vars@[i as int].1@);
                        }
                        networks.push((key, OidcProviderConfig { token_url: url }));
                    }
                },
                None => {},
            }
            proof {
                let newk = network_var_key(vars@[i as int].0@);
                assert forall|k: Seq<char>| #[trigger]
                    var_configures(post, k) <==> (var_configures(pre, k) || newk == Some(k)) by {
                    if var_configures(post, k) {
                        let j = choose|j: int| 0 <= j < post.len() && network_var_key((#[trigger] post[j]).0@) == Some(k);
                        if j < i {
                            assert(pre[j] == post[j]);
                        }
                    }
                    if var_configures(pre, k) {
                        let j = choose|j: int| 0 <= j < pre.len() && network_var_key((#[trigger] pre[j]).0@) == Some(k);
                        assert(post[j] == pre[j]);
                    }
                    if newk == Some(k) {
                        assert(network_var_key(post[i as int].0@) == Some(k));
                    }
                }
                assert forall|k: Seq<char>| #[trigger]
                    has_network(networks@, k) <==> (k == "vatsim"@ || var_configures(post, k)) by {
                    if has_network(networks@, k) {
                        let e = choose|e: int| 0 <= e < networks@.len() && (#[trigger] networks@[e]).0@ == k;
                        if e < before.len() {
                            assert(networks@[e] == before[e]);
                            assert(has_network(before, k));
                        }
                    }
                    if has_network(before, k) {
                        let e = choose|e: int| 0 <= e < before.len() && (#[trigger] before[e]).0@ == k;
                        assert(networks@[e] == before[e]);
                    }
                    if newk == Some(k) && networks@.len() > before.len() {
                        assert(networks@[before.len() as int].0@ == k);
                    }
                }
                assert forall|e: int|
                    1 <= e < networks@.len() implies entry_from_vars(post, #[trigger] networks@[e]) by {
                    let k = networks@[e].0@;
                    if e < before.len() {
                        assert(networks@[e] == before[e]);
                        assert(entry_from_vars(pre, before[e]));
                        let j = choose|j: int|
                            is_first_var_for(pre, before[e].0@, j) && before[e].1.token_url@ == pre[j].1@;
                        assert(pre[j] == vars@[j]);
                        assert(post[j] == pre[j]);
                        assert forall|q: int| 0 <= q < j implies network_var_key((#[trigger] post[q]).0@) != Some(k) by {
                            assert(post[q] == pre[q]);
                        }
                        assert(is_first_var_for(post, k, j));
                        assert(networks@[e].1.token_url@ == vars@[j].1@);
                    } else {
                        assert(!has_network(before, k)) by {
                            if has_network(before, k) {
                                let e2 = choose|e2: int| 0 <= e2 < before.len() && (#[trigger] before[e2]).0@ == k;
                                assert(networks@[e2] == before[e2]);
                            }
                        }
                        assert(!var_configures(pre, k));
                        assert forall|q: int| 0 <= q < i implies network_var_key((#[trigger] post[q]).0@) != Some(k) by {
                            assert(post[q] == pre[q]);
                            if network_var_key(pre[q].0@) == Some(k) {
                                assert(var_configures(pre, k));
                            }
                        }
                        assert(is_first_var_for(post, k, i as int));
                        assert(networks@[e].1.token_url@ == vars@[i as int].1@);
                    }
                }
            }
            i = i + 1;
        }
        proof {
            assert(vars@.take(vars@.len() as int) =~= vars@);
            assert(vars@.take(i as int) =~= vars@);
        }
        AppConfig { networks, listen_port }
    }

    /// The OIDC provider of a network, if it has one.
    pub fn provider_for(&self, network: &str) -> (r: Option<&OidcProviderConfig>)
        ensures
            r is None <==> !has_network(self.networks@, network@),
            r matches Some(p) ==> exists|i: int|
                is_first_network(self.networks@, network@, i) && *p == (#[trigger] self.networks@[i]).1,
    {
        let mut i: usize = 0;
        while i < self.networks.len()
            invariant
                i <= self.networks@.len(),
                forall|j: int| 0 <= j < i ==> (#[trigger] self.networks@[j]).0@ != network@,
            decreases self.networks@.len() - i,
        {
            if str_eq(self.networks[i].0.as_str(), network) {
                proof {
                    assert(is_first_network(self.networks@, network@, i as int));
                }
                return Some(&self.networks[i].1);
            }
            i = i + 1;
        }
        None
    }
}

/// The provider an exchange request goes to, or the error that the network
/// is unknown.
pub fn exchange_provider<'a>(config: &'a AppConfig, network: &str) -> (r: Result<
    &'a OidcProviderConfig,
    AuthError,
>)
    ensures
        has_network(config.networks@, network@) <==> r is Ok,
        r matches Ok(p) ==> exists|i: int|
            is_first_network(config.networks@, network@, i) && *p == (#[trigger] config.networks@[i]).1,
        r matches Err(e) ==> e matches AuthError::UnknownNetwork(n) && n@ == network@,
{
    match config.provider_for(network) {
        Some(p) => Ok(p),
        None => Err(AuthError::UnknownNetwork(network.to_owned())),
    }
}

/// A server token request must present the service's secret; otherwise it
/// is refused as a failed authentication.
pub fn check_server_secret(given: &str, expected: &str) -> (r: Result<(), AuthError>)
    ensures
        r is Ok <==> given@ == expected@,
        r matches Err(e) ==> e matches AuthError::OidcExchangeFailed(m) && m@
            == "invalid server secret"@,
{
    if str_eq(given, expected) {
        Ok(())
    } else {
        Err(AuthError::OidcExchangeFailed("invalid server secret".to_owned()))
    }
}

} // verus!
