//! The client configuration and the decision logic around an HTTP exchange:
//! which URL to call, what a status code means, and what a well-formed
//! embedding response must look like. The HTTP transport itself lives
//! outside this library and hands byte bodies in and out.

use vstd::prelude::*;
use vstd::string::StringExecFns;
use crate::errors::ClientError;
use crate::schema::EmbeddingResponse;

verus! {

/// The default upstream base URL.
pub open spec fn spec_default_base_url() -> Seq<char> {
    "https://api.openai.com/v1"@
}

/// The default upstream base URL as a value.
pub fn default_base_url() -> (r: String)
    ensures
        r@ == spec_default_base_url(),
{
    "https://api.openai.com/v1".to_owned()
}

/// The client configuration: the bearer credential, optional organization
/// and project headers, and the (injectable) base URL.
#[derive(Debug)]
pub struct Client {
    pub api_key: String,
    pub organization: Option<String>,
    pub project: Option<String>,
    pub base_url: String,
}

impl Client {
    /// A client for the default base URL with the given credential.
    pub fn new(api_key: String) -> (r: Self)
        ensures
            r.api_key@ == api_key@,
            r.organization is None,
            r.project is None,
            r.base_url@ == spec_default_base_url(),
    {
        Client { api_key, organization: None, project: None, base_url: default_base_url() }
    }

    /// The same client pointed at another base URL (a test double, say).
    pub fn with_base_url(self, base_url: String) -> (r: Self)
        ensures
            r.api_key@ == self.api_key@,
            r.organization == self.organization,
            r.project == self.project,
            r.base_url@ == base_url@,
    {
        Client {
            api_key: self.api_key,
            organization: self.organization,
            project: self.project,
            base_url,
        }
    }

    /// The URL of an endpoint: the configured base followed by the path.
    pub fn endpoint_url(&self, path: &str) -> (r: String)
        ensures
            r@ == self.base_url@ + path@,
    {
        self.base_url.clone().concat(path)
    }
}

/// Make a client from the credential as found (or not) in the environment:
/// a missing credential is a fatal configuration error, never a silent
/// default.
pub fn client_from_key(api_key: Option<String>) -> (r: Result<Client, ClientError>)
    ensures
        match r {
            Ok(c) => {
                &&& match api_key {
                    Some(k) => c.api_key@ == k@,
                    None => false,
                }
                &&& c.organization is None
                &&& c.project is None
                &&& c.base_url@ == spec_default_base_url()
            },
            Err(e) => api_key is None && e is ConfigError,
        },
{
    match api_key {
        Some(k) => Ok(Client::new(k)),
        None => Err(ClientError::ConfigError),
    }
}

/// What a buffered HTTP response means: a 2xx status hands the raw body on
/// for decoding; any other status is an `HttpStatusError` carrying the
/// status code and the raw body, which is never parsed as a success schema.
pub fn interpret_response(status: u16, body: Vec<u8>) -> (r: Result<Vec<u8>, ClientError>)
    ensures
        match r {
            Ok(b) => 200 <= status < 300 && b@ == body@,
            Err(e) => !(200 <= status < 300) && match e {
                ClientError::HttpStatusError { status: s, body: b } => s == status && b@ == body@,
                _ => false,
            },
        },
{
    if 200 <= status && status < 300 {
        Ok(body)
    } else {
        Err(ClientError::HttpStatusError { status, body })
    }
}

/// Whether an embedding response matches the request's fan-out: exactly
/// `expected` embeddings, the i-th carrying index i.
pub open spec fn embedding_fanout_ok(resp: EmbeddingResponse, expected: nat) -> bool {
    &&& resp.data@.len() == expected
    &&& forall|i: int| 0 <= i < resp.data@.len() ==> (#[trigger] resp.data@[i].index) as int == i
}

/// Check an embedding response against the request's fan-out (1 for a
/// single input string); a mismatch is a decode error, never silently
/// accepted.
pub fn validate_embedding_response(resp: &EmbeddingResponse, expected: usize) -> (r: Result<
    (),
    ClientError,
>)
    ensures
        match r {
            Ok(u) => embedding_fanout_ok(*resp, expected as nat),
            Err(e) => !embedding_fanout_ok(*resp, expected as nat) && e is DecodeError,
        },
{
    if resp.data.len() != expected {
        return Err(
            ClientError::DecodeError {
                message: "embedding count does not match request fan-out".to_owned(),
            },
        );
    }
    let mut i: usize = 0;
    while i < resp.data.len()
        invariant
            i <= resp.data@.len(),
            resp.data@.len() == expected,
            forall|k: int| 0 <= k < i ==> (#[trigger] resp.data@[k].index) as int == k,
        decreases resp.data@.len() - i,
    {
        if resp.data[i].index as u64 != i as u64 {
            return Err(
                ClientError::DecodeError { message: "embedding index out of order".to_owned() },
            );
        }
        i = i + 1;
    }
    Ok(())
}

} // verus!
