use vstd::prelude::*;

verus! {

/// The standard base64 encoding, with padding, of the UTF-8 bytes of `text`.
pub uninterp spec fn base64_of(text: Seq<char>) -> Seq<char>;

/// Relies on base64's `encode`: the standard alphabet with padding, applied to the string's
/// UTF-8 bytes; the result depends on those bytes alone.
#[verifier::external_body]
fn base64_encode(text: &str) -> (r: String)
    ensures
        r@ == base64_of(text@),
{
    base64::encode(text)
}

/// The address of the client that sent a request.
pub struct ClientIP(pub String);

impl ClientIP {
    /// The client's address as the request reports it; the empty string when it reports none.
    pub fn from_client_ip(ip: Option<String>) -> (r: ClientIP)
        ensures
            r.0@ == match ip {
                Some(s) => s@,
                None => Seq::<char>::empty(),
            },
    {
        match ip {
            Some(s) => ClientIP(s),
            None => ClientIP(String::new()),
        }
    }

    pub fn address(self) -> (r: String)
        ensures
            r == self.0,
    {
        self.0
    }
}

/// The header value that admits the administrator with `username` and `password`.
pub open spec fn expected_authorization(username: Seq<char>, password: Seq<char>) -> Seq<char> {
    "Basic "@ + base64_of(username + ":"@ + password)
}

/// Proof that a request carried the administrator's credentials.
pub struct BasicAuth();

impl BasicAuth {
    /// Admits a request whose `Authorization` header is `Basic ` followed by the base64 of
    /// `username:password`.
    pub fn from_authorization(sent: Option<String>, username: &str, password: &str) -> (r: Option<
        BasicAuth,
    >)
        ensures
            r is Some <==> (sent is Some && sent->0@ == expected_authorization(username@, password@)),
    {
        match sent {
            Some(sent) => {
                let credentials = String::from_str(username).concat(":").concat(password);
                let encoded = base64_encode(credentials.as_str());
                let valid = String::from_str("Basic ").concat(encoded.as_str());
                if sent == valid {
                    Some(BasicAuth())
                } else {
                    None
                }
            },
            None => None,
        }
    }
}

/// Marks a request that reached the site over plain HTTP behind a proxy and must be sent to
/// HTTPS.
pub struct ForceSSL();

impl ForceSSL {
    /// Applies when the proxy's `X-Forwarded-Proto` header says `http`.
    pub fn from_forwarded_proto(proto: Option<String>) -> (r: Option<ForceSSL>)
        ensures
            r is Some <==> (proto is Some && proto->0@ == "http"@),
    {
        match proto {
            Some(p) => {
                let http = String::from_str("http");
                if p == http {
                    Some(ForceSSL())
                } else {
                    None
                }
            },
            None => None,
        }
    }
}

} // verus!
