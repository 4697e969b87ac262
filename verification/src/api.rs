//! Helpers for the surrounding exchange API client: URL construction,
//! form-encoded parameter strings, nonces, and the request signature.
//! The cryptographic primitives are outside crates, called through
//! trusted wrappers; everything around them is verified.
use vstd::prelude::*;
use vstd::string::{StrSliceExecFns, StringExecFns, StringSliceAdditionalSpecFns};
use vstd::utf8::encode_utf8;
use hmac::{Hmac, Mac, NewMac};
use sha2::Digest;
use std::time::{SystemTime, UNIX_EPOCH};

verus! {

pub ghost struct ApiContextView {
    pub otp: Seq<char>,
    pub api_host: Seq<char>,
    pub api_key: Seq<char>,
    pub secret_key: Seq<char>,
}

/// Connection parameters of one API session.
pub struct ApiContext {
    pub otp: String,
    api_host: String,
    api_key: String,
    secret_key: String,
}

impl View for ApiContext {
    type V = ApiContextView;

    closed spec fn view(&self) -> ApiContextView {
        ApiContextView {
            otp: self.otp@,
            api_host: self.api_host@,
            api_key: self.api_key@,
            secret_key: self.secret_key@,
        }
    }
}

impl ApiContext {
    pub fn new(api_key: String, api_host: String, secret_key: String, otp: String) -> (r: Self)
        ensures
            r@ == (ApiContextView {
                otp: otp@,
                api_host: api_host@,
                api_key: api_key@,
                secret_key: secret_key@,
            }),
    {
        Self { api_key, api_host, secret_key, otp }
    }

    /// The key this session authenticates with.
    pub fn api_key(&self) -> (r: &String)
        ensures
            r@ == self@.api_key,
    {
        &self.api_key
    }

    /// The base URL of the public API.
    pub fn get_public_api_url(&self) -> (r: String)
        ensures
            r@ == "https://"@ + self@.api_host + "/0/public/"@,
    {
        let r = String::from_str("https://").concat(self.api_host.as_str()).concat("/0/public/");
        proof {
            assert(r@ =~= "https://"@ + self@.api_host + "/0/public/"@);
        }
        r
    }

    /// The base URL of the private (authenticated) API.
    pub fn get_private_api_url(&self) -> (r: String)
        ensures
            r@ == "https://"@ + self@.api_host + "/0/private/"@,
    {
        let r = String::from_str("https://").concat(self.api_host.as_str()).concat("/0/private/");
        proof {
            assert(r@ =~= "https://"@ + self@.api_host + "/0/private/"@);
        }
        r
    }

    /// Sign one private API request with this session's secret key.
    /// Fails exactly when the secret key is not valid base64.
    pub fn sign_request(&self, nonce: &str, uri_path: &str, url_encoded_params: &str) -> (r:
        Option<String>)
        ensures
            r is Some <==> base64_decode_of(self@.secret_key) is Some,
            r matches Some(sig) ==> (base64_decode_of(self@.secret_key) matches Some(k) && sig@
                == api_sign_of(nonce@, uri_path@, k, url_encoded_params@)),
    {
        get_api_sign(nonce, uri_path, self.secret_key.as_str(), url_encoded_params)
    }

    /// A request nonce: the current time in whole seconds.
    /// Relies on std's `SystemTime` clock; the result depends on the
    /// clock alone, so nothing can be promised of it.
    #[verifier::external_body]
    pub fn get_nonce() -> u64 {
        SystemTime::now().duration_since(UNIX_EPOCH).map(|d| d.as_secs()).unwrap_or(0)
    }
}

/// One `key=value` pair.
pub open spec fn enc_pair(p: (Seq<char>, Seq<char>)) -> Seq<char> {
    p.0 + "="@ + p.1
}

/// `key=value` pairs joined with `&`, in the order given.
pub open spec fn enc_params(ps: Seq<(Seq<char>, Seq<char>)>) -> Seq<char>
    decreases ps.len(),
{
    if ps.len() == 0 {
        Seq::empty()
    } else if ps.len() == 1 {
        enc_pair(ps[0])
    } else {
        enc_params(ps.drop_last()) + "&"@ + enc_pair(ps.last())
    }
}

/// The view of a parameter list.
pub open spec fn params_view(ps: Seq<(String, String)>) -> Seq<(Seq<char>, Seq<char>)> {
    ps.map_values(|p: (String, String)| (p.0@, p.1@))
}

/// Join the parameters as a form-encoded body, in the order given.
pub fn get_url_encoded_params(params: &Vec<(String, String)>) -> (r: String)
    ensures
        r@ == enc_params(params_view(params@)),
{
    let ghost ps = params_view(params@);
    let mut out = String::new();
    let mut i: usize = 0;
    while i < params.len()
        invariant
            i <= params.len(),
            ps == params_view(params@),
            ps.len() == params.len(),
            out@ == enc_params(ps.take(i as int)),
        decreases params.len() - i,
    {
        proof {
            assert(ps[i as int] == params_view(params@)[i as int]);
        }
        if i > 0 {
            out.append("&");
        }
        out.append(params[i].0.as_str());
        out.append("=");
        out.append(params[i].1.as_str());
        i = i + 1;
        proof {
            assert(ps.take(i as int).drop_last() =~= ps.take(i as int - 1));
            assert(ps.take(i as int).last() == ps[i as int - 1]);
            if i == 1 {
                assert(out@ =~= enc_params(ps.take(1)));
            } else {
                assert(enc_params(ps.take(i as int)) == enc_params(ps.take(i as int - 1)) + "&"@
                    + enc_pair(ps[i as int - 1]));
                assert(out@ =~= enc_params(ps.take(i as int)));
            }
        }
    }
    proof {
        assert(ps.take(ps.len() as int) =~= ps);
    }
    out
}

/// The URL with its query string: the parameters are appended after a
/// question mark only when there are any.
pub fn get_url_and_query_string(url: &str, params: &Vec<(String, String)>) -> (r: String)
    ensures
        params@.len() == 0 ==> r@ == url@,
        params@.len() > 0 ==> r@ == url@ + "?"@ + enc_params(params_view(params@)),
{
    let mut uri = String::from_str(url);
    if params.len() > 0 {
        uri.append("?");
        let encoded = get_url_encoded_params(params);
        uri.append(encoded.as_str());
    }
    uri
}

/// The SHA-256 digest of a byte string, named: it is a function of the
/// input alone.
pub uninterp spec fn sha256_of(data: Seq<u8>) -> Seq<u8>;

/// The HMAC-SHA-512 tag of a message under a key, named: it is a
/// function of the two inputs alone.
pub uninterp spec fn hmac_sha512_of(key: Seq<u8>, msg: Seq<u8>) -> Seq<u8>;

/// What base64 decoding yields for a string, when it is valid base64.
pub uninterp spec fn base64_decode_of(s: Seq<char>) -> Option<Seq<u8>>;

/// The base64 rendering of a byte string.
pub uninterp spec fn base64_encode_of(b: Seq<u8>) -> Seq<char>;

/// Relies on `sha2::Sha256::digest`: the digest depends on the input
/// bytes alone.
#[verifier::external_body]
fn sha256_digest(data: &[u8]) -> (r: Vec<u8>)
    ensures
        r@ == sha256_of(data@),
{
    sha2::Sha256::digest(data).to_vec()
}

/// Relies on `hmac::Hmac::<sha2::Sha512>` (`new_from_slice`, `update`,
/// `finalize`): the tag depends on key and message alone, and
/// `new_from_slice` accepts keys of any length for HMAC.
#[verifier::external_body]
fn hmac_sha512(key: &[u8], msg: &[u8]) -> (r: Vec<u8>)
    ensures
        r@ == hmac_sha512_of(key@, msg@),
{
    let mut mac = <Hmac<sha2::Sha512> as NewMac>::new_from_slice(key).expect(
        "HMAC accepts keys of any length",
    );
    mac.update(msg);
    mac.finalize().into_bytes().to_vec()
}

/// Relies on `base64::decode`: it yields the decoded bytes exactly when
/// the input is valid base64, and both depend on the input alone.
#[verifier::external_body]
fn base64_decode(s: &str) -> (r: Option<Vec<u8>>)
    ensures
        r is Some <==> base64_decode_of(s@) is Some,
        r matches Some(v) ==> base64_decode_of(s@) == Some(v@),
{
    match base64::decode(s) {
        Ok(v) => Some(v),
        Err(_) => None,
    }
}

/// Relies on `base64::encode`: the rendering depends on the input bytes
/// alone.
#[verifier::external_body]
fn base64_encode(b: &[u8]) -> (r: String)
    ensures
        r@ == base64_encode_of(b@),
{
    base64::encode(b)
}

/// The signature of one request: HMAC-SHA-512 over the URI path followed
/// by SHA-256 of nonce and body, under the base64-decoded secret, base64
/// encoded.
pub open spec fn api_sign_of(
    nonce: Seq<char>,
    uri_path: Seq<char>,
    key: Seq<u8>,
    params: Seq<char>,
) -> Seq<char> {
    base64_encode_of(
        hmac_sha512_of(key, encode_utf8(uri_path) + sha256_of(encode_utf8(nonce + params))),
    )
}

/// Sign one private API request. Fails exactly when the secret key is
/// not valid base64.
pub fn get_api_sign(nonce: &str, uri_path: &str, secret_key: &str, url_encoded_params: &str) -> (r:
    Option<String>)
    ensures
        r is Some <==> base64_decode_of(secret_key@) is Some,
        r matches Some(sig) ==> (base64_decode_of(secret_key@) matches Some(k) && sig@
            == api_sign_of(nonce@, uri_path@, k, url_encoded_params@)),
{
    let key = match base64_decode(secret_key) {
        None => {
            return None;
        },
        Some(k) => k,
    };
    let mut np = String::from_str(nonce);
    np.append(url_encoded_params);
    let sha = sha256_digest(np.as_str().as_bytes());
    let mut msg = uri_path.as_bytes_vec();
    crate::chars::append_vec(&mut msg, &sha);
    proof {
        assert(msg@ == encode_utf8(uri_path@) + sha256_of(encode_utf8(nonce@
            + url_encoded_params@)));
    }
    let tag = hmac_sha512(key.as_slice(), msg.as_slice());
    let sig = base64_encode(tag.as_slice());
    Some(sig)
}

} // verus!
